//! What one probe of a virtual machine found, and how it is reported.

use crate::docker::Container;
use crate::num::{self, digits, fixed, known_micro, left, right, signed_digits};
use crate::text::{self, opt_text, texts};
use crate::vm::{self, identity_in, Identity};
use vstd::prelude::*;
use vstd::string::*;

verus! {

/// One process inside the virtual machine.
#[derive(Debug, Clone, PartialEq, Eq)]
pub struct GuestProcess {
    pub pid: u32,
    pub ppid: u32,
    pub start_ticks: u64,
    pub name: String,
    pub cpu_percent: u64,
    pub rss_bytes: u64,
    pub container_id: Option<String>,
    pub cgroup: Option<String>,
    pub probe: bool,
}

/// The processes of the virtual machine over one interval.
#[derive(Debug, Clone, PartialEq, Eq)]
pub struct Guest {
    pub interval_s: u64,
    pub logical_cpus: Option<u32>,
    pub busy_percent: Option<u64>,
    pub observed_processes: usize,
    pub measured_processes: usize,
    pub unreadable_cgroups: usize,
    pub processes: Vec<GuestProcess>,
}

/// What one probe of a virtual machine found.
#[derive(Debug, Clone, PartialEq, Eq)]
pub struct Inspection {
    pub pid: i32,
    pub start_abstime: Option<u64>,
    pub started_at: i64,
    pub finished_at: i64,
    pub identity: Option<Identity>,
    pub containers: Option<Vec<Container>>,
    pub guest: Option<Guest>,
    pub errors: Vec<String>,
}

/// The bytes that a character takes in UTF-8.
pub open spec fn width(c: char) -> nat {
    let u = c as u32;
    if u < 0x80 {
        1
    } else if u < 0x800 {
        2
    } else if u < 0x10000 {
        3
    } else {
        4
    }
}

/// The longest beginning of `s` that takes at most `limit` bytes.
pub open spec fn within(s: Seq<char>, limit: int) -> Seq<char>
    decreases s.len(),
{
    if s.len() == 0 || width(s[0]) > limit {
        Seq::empty()
    } else {
        seq![s[0]] + within(s.skip(1), limit - width(s[0]))
    }
}

fn clip(s: &str, limit: usize) -> (r: String)
    ensures
        r@ == within(s@, limit as int),
{
    let cs = text::chars(s);
    let mut r = String::new();
    let mut room: usize = limit;
    let mut i: usize = 0;
    proof {
        assert(cs@.skip(0) =~= cs@);
        assert(r@ + within(cs@, limit as int) =~= within(cs@, limit as int));
    }
    while i < cs.len()
        invariant
            i <= cs@.len(),
            cs@ == s@,
            r@ + within(cs@.skip(i as int), room as int) == within(s@, limit as int),
        decreases cs.len() - i,
    {
        let c: char = cs[i];
        let u: u32 = c as u32;
        let w: usize = if u < 0x80 {
            1
        } else if u < 0x800 {
            2
        } else if u < 0x10000 {
            3
        } else {
            4
        };
        proof {
            assert(cs@.skip(i as int)[0] == c);
            assert(cs@.skip(i as int).skip(1) =~= cs@.skip(i + 1));
        }
        if w > room {
            proof {
                assert(r@ + Seq::<char>::empty() =~= r@);
            }
            return r;
        }
        let ghost before = r@;
        r.push(c);
        room = room - w;
        proof {
            let rest = within(cs@.skip(i + 1), room as int);
            assert(before.push(c) + rest =~= before + (seq![c] + rest));
        }
        i += 1;
    }
    proof {
        assert(r@ + Seq::<char>::empty() =~= r@);
    }
    r
}

/// The name of the first container with the given id.
pub open spec fn name_of(cs: Seq<Container>, id: Seq<char>) -> Option<Seq<char>>
    decreases cs.len(),
{
    if cs.len() == 0 {
        None
    } else if cs[0].id@ == id {
        Some(cs[0].name@)
    } else {
        name_of(cs.skip(1), id)
    }
}

fn named(cs: &Vec<Container>, id: &String) -> (r: Option<String>)
    ensures
        opt_text(r) == name_of(cs@, id@),
{
    let mut i: usize = 0;
    proof {
        assert(cs@.skip(0) =~= cs@);
    }
    while i < cs.len()
        invariant
            i <= cs@.len(),
            name_of(cs@.skip(i as int), id@) == name_of(cs@, id@),
        decreases cs.len() - i,
    {
        proof {
            assert(cs@.skip(i as int)[0] == cs@[i as int]);
            assert(cs@.skip(i as int).skip(1) =~= cs@.skip(i + 1));
        }
        if cs[i].id == *id {
            return Some(cs[i].name.clone());
        }
        i += 1;
    }
    None
}

/// Whom a process inside the machine belongs to.
pub open spec fn owner_of(containers: Option<Vec<Container>>, p: GuestProcess) -> Seq<char> {
    match p.container_id {
        Some(id) => {
            let known = match containers {
                Some(cs) => name_of(cs@, id@),
                None => None,
            };
            match known {
                Some(n) => n,
                None => "container "@ + within(id@, 12),
            }
        },
        None => if p.cgroup is Some {
            "VM / unmapped cgroup"@
        } else {
            "unknown (cgroup unreadable)"@
        },
    }
}

/// The tool and profile of a machine.
pub open spec fn machine_text(id: Identity) -> Seq<char> {
    id.tool@ + " / "@ + match id.profile {
        Some(p) => p@,
        None => "default"@,
    }
}

/// The tool and profile of a machine, or the word for an unknown one.
pub fn machine(id: &Option<Identity>, unknown: &str) -> (r: String)
    ensures
        r@ == match *id {
            Some(i) => machine_text(i),
            None => unknown@,
        },
{
    match id {
        Some(i) => {
            let mut r = i.tool.clone();
            r.append(" / ");
            match &i.profile {
                Some(p) => r.append(p.as_str()),
                None => r.append("default"),
            }
            r
        },
        None => text::copy(unknown),
    }
}

/// A text, or a dash for one that is missing.
pub open spec fn or_dash(s: Option<String>) -> Seq<char> {
    match s {
        Some(t) => t@,
        None => "—"@,
    }
}

/// The text of an optional string, or a dash.
pub fn dash(s: &Option<String>) -> (r: String)
    ensures
        r@ == or_dash(*s),
{
    match s {
        Some(t) => t.clone(),
        None => text::copy("—"),
    }
}

/// The report lines of one container.
pub open spec fn container_text(c: Container) -> Seq<char> {
    right(known_micro(c.cpu_percent), 7) + "%  "@ + c.name@ + "  RAM "@ + c.memory@
        + "\n          image="@ + c.image@ + "  compose="@ + or_dash(c.project) + "/"@ + or_dash(
        c.service,
    ) + "\n"@
}

/// The report lines of containers, in order.
pub open spec fn containers_text(cs: Seq<Container>) -> Seq<char>
    decreases cs.len(),
{
    if cs.len() == 0 {
        Seq::empty()
    } else {
        containers_text(cs.drop_last()) + container_text(cs.last())
    }
}

/// The report line of one process inside the machine.
pub open spec fn process_text(containers: Option<Vec<Container>>, p: GuestProcess) -> Seq<char> {
    right(digits(p.pid as nat), 8) + " "@ + right(fixed(p.cpu_percent as nat, 100_000, 1), 7)
        + "%  "@ + left(p.name@, 24) + " "@ + owner_of(containers, p) + (if p.probe {
        " [probe]"@
    } else {
        ""@
    }) + "\n"@
}

/// The report lines of processes, in order.
pub open spec fn processes_text(
    containers: Option<Vec<Container>>,
    ps: Seq<GuestProcess>,
) -> Seq<char>
    decreases ps.len(),
{
    if ps.len() == 0 {
        Seq::empty()
    } else {
        processes_text(containers, ps.drop_last()) + process_text(containers, ps.last())
    }
}

/// The report lines of what could not be had.
pub open spec fn errors_text(es: Seq<String>) -> Seq<char>
    decreases es.len(),
{
    if es.len() == 0 {
        Seq::empty()
    } else {
        errors_text(es.drop_last()) + "\nUnavailable: "@ + es.last()@ + "\n"@
    }
}

/// The first rows, at most `n` of them.
pub open spec fn at_most<T>(s: Seq<T>, n: int) -> Seq<T> {
    if s.len() <= n {
        s
    } else {
        s.take(n)
    }
}

/// The most processes that a report lists.
pub const REPORTED: usize = 25;

/// The heading of the processes inside the machine.
pub open spec fn guest_heading(g: Guest) -> Seq<char> {
    "\nLinux processes over "@ + fixed(g.interval_s as nat, 10_000, 2) + "s; "@ + digits(
        g.measured_processes as nat,
    ) + "/"@ + digits(g.observed_processes as nat) + " measured; "@ + digits(
        g.unreadable_cgroups as nat,
    ) + " unreadable cgroups; system busy "@ + known_micro(g.busy_percent) + "% of "@ + digits(
        match g.logical_cpus {
            Some(n) => n as nat,
            None => 0,
        },
    ) + " vCPUs:\n"@
}

impl Inspection {
    /// Whom a process inside the machine belongs to: its container by name,
    /// else by the beginning of its id, else the reason why it is unknown.
    pub fn owner(&self, p: &GuestProcess) -> (r: String)
        ensures
            r@ == owner_of(self.containers, *p),
    {
        match &p.container_id {
            Some(id) => {
                let found = match &self.containers {
                    Some(cs) => named(cs, id),
                    None => None,
                };
                match found {
                    Some(n) => n,
                    None => {
                        let mut r = text::copy("container ");
                        r.append(clip(id.as_str(), 12).as_str());
                        r
                    },
                }
            },
            None => if p.cgroup.is_some() {
                text::copy("VM / unmapped cgroup")
            } else {
                text::copy("unknown (cgroup unreadable)")
            },
        }
    }

    /// The first lines of a report: the host process and the machine.
    pub open spec fn heading(self) -> Seq<char> {
        let first = "Host PID "@ + signed_digits(self.pid as int) + " → "@ + (match self.identity {
            Some(i) => machine_text(i),
            None => "unknown VM"@,
        }) + "\n"@;
        let second = match self.identity {
            Some(i) => first + "Evidence: "@ + i.evidence@ + "\n"@,
            None => first,
        };
        second
            + "CPU percentages below are guest CPU load (100% = one logical CPU), not measured container watts.\n"@
    }

    /// The report up to and including the containers.
    pub open spec fn upper_part(self) -> Seq<char> {
        match self.containers {
            None => self.heading(),
            Some(cs) => {
                let listed = self.heading()
                    + "\nContainers (Docker interval; separate from guest process interval):\n"@
                    + containers_text(cs@);
                if cs@.len() == 0 {
                    listed
                        + "No running containers reported; VM/host services may still consume CPU.\n"@
                } else {
                    listed
                }
            },
        }
    }

    /// The report up to and including the processes.
    pub open spec fn main_part(self) -> Seq<char> {
        match self.guest {
            None => self.upper_part(),
            Some(g) => self.upper_part() + guest_heading(g) + processes_text(
                self.containers,
                at_most(g.processes@, REPORTED as int),
            ),
        }
    }

    /// The whole report.
    pub open spec fn text(self) -> Seq<char> {
        self.main_part() + errors_text(self.errors@)
    }

    fn write_heading(&self) -> (r: String)
        ensures
            r@ == self.heading(),
    {
        let mut out = text::copy("Host PID ");
        out.append(num::signed(self.pid as i64).as_str());
        out.append(" → ");
        out.append(machine(&self.identity, "unknown VM").as_str());
        out.append("\n");
        if let Some(i) = &self.identity {
            out.append("Evidence: ");
            out.append(i.evidence.as_str());
            out.append("\n");
        }
        out.append(
            "CPU percentages below are guest CPU load (100% = one logical CPU), not measured container watts.\n",
        );
        out
    }

    fn write_containers(&self, out: &mut String)
        requires
            old(out)@ == self.heading(),
        ensures
            final(out)@ == self.upper_part(),
    {
        if let Some(cs) = &self.containers {
            out.append("\nContainers (Docker interval; separate from guest process interval):\n");
            let ghost base = out@;
            let mut i: usize = 0;
            proof {
                assert(base + Seq::<char>::empty() =~= base);
            }
            while i < cs.len()
                invariant
                    i <= cs@.len(),
                    out@ == base + containers_text(cs@.take(i as int)),
                decreases cs.len() - i,
            {
                let c = &cs[i];
                let mut line = num::pad_left(num::number_micro(c.cpu_percent).as_str(), 7);
                line.append("%  ");
                line.append(c.name.as_str());
                line.append("  RAM ");
                line.append(c.memory.as_str());
                line.append("\n          image=");
                line.append(c.image.as_str());
                line.append("  compose=");
                line.append(dash(&c.project).as_str());
                line.append("/");
                line.append(dash(&c.service).as_str());
                line.append("\n");
                out.append(line.as_str());
                proof {
                    assert(cs@.take(i + 1).drop_last() =~= cs@.take(i as int));
                    assert(out@ =~= base + containers_text(cs@.take(i + 1)));
                }
                i += 1;
            }
            proof {
                assert(cs@.take(cs@.len() as int) =~= cs@);
            }
            if cs.len() == 0 {
                out.append(
                    "No running containers reported; VM/host services may still consume CPU.\n",
                );
            }
        }
    }

    fn write_guest(&self, out: &mut String)
        requires
            old(out)@ == self.upper_part(),
        ensures
            final(out)@ == self.main_part(),
    {
        if let Some(g) = &self.guest {
            let mut head = text::copy("\nLinux processes over ");
            head.append(num::render(g.interval_s as u128, 10_000, 2).as_str());
            head.append("s; ");
            head.append(num::decimal(g.measured_processes as u128).as_str());
            head.append("/");
            head.append(num::decimal(g.observed_processes as u128).as_str());
            head.append(" measured; ");
            head.append(num::decimal(g.unreadable_cgroups as u128).as_str());
            head.append(" unreadable cgroups; system busy ");
            head.append(num::number_micro(g.busy_percent).as_str());
            head.append("% of ");
            let cpus: u32 = match g.logical_cpus {
                Some(n) => n,
                None => 0,
            };
            head.append(num::decimal(cpus as u128).as_str());
            head.append(" vCPUs:\n");
            out.append(head.as_str());
            let ghost base = out@;
            let ghost shown = at_most(g.processes@, REPORTED as int);
            let n: usize = if g.processes.len() < REPORTED {
                g.processes.len()
            } else {
                REPORTED
            };
            let mut i: usize = 0;
            proof {
                assert(base + Seq::<char>::empty() =~= base);
                assert(shown =~= g.processes@.take(n as int));
            }
            while i < n
                invariant
                    i <= n <= g.processes@.len(),
                    out@ == base + processes_text(self.containers, g.processes@.take(i as int)),
                decreases n - i,
            {
                let p = &g.processes[i];
                let mut line = num::pad_left(num::decimal(p.pid as u128).as_str(), 8);
                line.append(" ");
                line.append(
                    num::pad_left(
                        num::render(p.cpu_percent as u128, 100_000, 1).as_str(),
                        7,
                    ).as_str(),
                );
                line.append("%  ");
                line.append(num::pad_right(p.name.as_str(), 24).as_str());
                line.append(" ");
                line.append(self.owner(p).as_str());
                if p.probe {
                    line.append(" [probe]");
                } else {
                    line.append("");
                }
                line.append("\n");
                out.append(line.as_str());
                proof {
                    assert(g.processes@.take(i + 1).drop_last() =~= g.processes@.take(i as int));
                    assert(out@ =~= base + processes_text(
                        self.containers,
                        g.processes@.take(i + 1),
                    ));
                }
                i += 1;
            }
        }
    }

    /// The report of the probe.
    pub fn report(&self) -> (r: String)
        ensures
            r@ == self.text(),
    {
        let mut out = self.write_heading();
        self.write_containers(&mut out);
        self.write_guest(&mut out);
        let ghost base = out@;
        let mut i: usize = 0;
        proof {
            assert(base + Seq::<char>::empty() =~= base);
        }
        while i < self.errors.len()
            invariant
                i <= self.errors@.len(),
                out@ == base + errors_text(self.errors@.take(i as int)),
            decreases self.errors.len() - i,
        {
            out.append("\nUnavailable: ");
            out.append(self.errors[i].as_str());
            out.append("\n");
            proof {
                assert(self.errors@.take(i + 1).drop_last() =~= self.errors@.take(i as int));
                assert(out@ =~= base + errors_text(self.errors@.take(i + 1)));
            }
            i += 1;
        }
        proof {
            assert(self.errors@.take(self.errors@.len() as int) =~= self.errors@);
        }
        out
    }
}

/// A process is not the one that a probe was asked about.
pub open spec fn replaced(expected: Option<u64>, actual: Option<u64>) -> bool {
    expected is Some && actual != expected
}

/// Whether the process with this start is another than the expected one.
pub fn is_replaced(expected: Option<u64>, actual: Option<u64>) -> (r: bool)
    ensures
        r == replaced(expected, actual),
{
    match expected {
        Some(e) => match actual {
            Some(a) => a != e,
            None => true,
        },
        None => false,
    }
}

/// The machine that a listing of open files names, or why there is none.
pub fn identity_from(files: Result<String, String>) -> (r: Result<Identity, String>)
    ensures
        match files {
            Err(e) => r == Err::<Identity, String>(e),
            Ok(f) => match identity_in(f@) {
                Some(v) => r is Ok && (r->Ok_0)@ == v,
                None => r is Err && (r->Err_0)@
                    == "Could not uniquely identify this VM from its open disk files; no default Docker context was queried"@,
            },
        },
{
    match files {
        Err(e) => Err(e),
        Ok(f) => match vm::identify(f.as_str()) {
            Some(id) => Ok(id),
            None => Err(
                text::copy(
                    "Could not uniquely identify this VM from its open disk files; no default Docker context was queried",
                ),
            ),
        },
    }
}

/// What the steps of a probe gave back.
pub struct Probe {
    /// When the probe began and ended.
    pub started_at: i64,
    pub finished_at: i64,
    /// The start of the process before and after the probe.
    pub first_start: Option<u64>,
    pub last_start: Option<u64>,
    /// The machine, or why it is not known.
    pub identity: Result<Identity, String>,
    /// What the machine's own sources answered.
    pub containers: Result<Vec<Container>, String>,
    pub guest: Result<Guest, String>,
}

/// The errors of a probe, in order.
pub open spec fn probe_errors(expected: Option<u64>, p: Probe) -> Seq<Seq<char>> {
    if replaced(expected, p.first_start) {
        seq!["Process exited or PID was reused; select the current VM again"@]
    } else {
        let found = match p.identity {
            Err(e) => seq![e@],
            Ok(_) => {
                let c = match p.containers {
                    Err(e) => seq!["Containers: "@ + e@],
                    Ok(_) => Seq::empty(),
                };
                match p.guest {
                    Err(e) => c.push("Guest: "@ + e@),
                    Ok(_) => c,
                }
            },
        };
        if replaced(p.first_start, p.last_start) {
            found.push("VM process changed while probing; results discarded"@)
        } else {
            found
        }
    }
}

/// The results of a probe may be kept: the process stayed the same throughout
/// and its machine is known.
pub open spec fn conclusive(expected: Option<u64>, p: Probe) -> bool {
    &&& !replaced(expected, p.first_start)
    &&& !replaced(p.first_start, p.last_start)
    &&& p.identity is Ok
}

/// The inspection that a probe of the given process concludes.
///
/// Results of a process that was replaced while it was probed are discarded.
pub fn inspect(pid: i32, expected_start: Option<u64>, probe: Probe) -> (r: Inspection)
    ensures
        r.pid == pid,
        r.started_at == probe.started_at,
        r.finished_at == probe.finished_at,
        r.start_abstime == if replaced(expected_start, probe.first_start) {
            expected_start
        } else {
            probe.first_start
        },
        r.identity == if replaced(expected_start, probe.first_start) {
            None
        } else {
            match probe.identity {
                Ok(id) => Some(id),
                Err(_) => None,
            }
        },
        r.containers == if conclusive(expected_start, probe) && probe.containers is Ok {
            Some(probe.containers->Ok_0)
        } else {
            None
        },
        r.guest == if conclusive(expected_start, probe) && probe.guest is Ok {
            Some(probe.guest->Ok_0)
        } else {
            None
        },
        texts(r.errors@) == probe_errors(expected_start, probe),
{
    let ghost p = probe;
    let mut errors: Vec<String> = Vec::new();
    if is_replaced(expected_start, probe.first_start) {
        errors.push(text::copy("Process exited or PID was reused; select the current VM again"));
        proof {
            assert(texts(errors@) =~= probe_errors(expected_start, p));
        }
        return Inspection {
            pid,
            start_abstime: expected_start,
            started_at: probe.started_at,
            finished_at: probe.finished_at,
            identity: None,
            containers: None,
            guest: None,
            errors,
        };
    }
    let mut identity: Option<Identity> = None;
    let mut containers: Option<Vec<Container>> = None;
    let mut guest: Option<Guest> = None;
    match probe.identity {
        Ok(id) => {
            match probe.containers {
                Ok(c) => containers = Some(c),
                Err(e) => {
                    let mut m = text::copy("Containers: ");
                    m.append(e.as_str());
                    errors.push(m);
                },
            }
            match probe.guest {
                Ok(g) => guest = Some(g),
                Err(e) => {
                    let mut m = text::copy("Guest: ");
                    m.append(e.as_str());
                    errors.push(m);
                },
            }
            identity = Some(id);
        },
        Err(e) => errors.push(e),
    }
    if is_replaced(probe.first_start, probe.last_start) {
        containers = None;
        guest = None;
        errors.push(text::copy("VM process changed while probing; results discarded"));
    }
    proof {
        assert(texts(errors@) =~= probe_errors(expected_start, p));
    }
    Inspection {
        pid,
        start_abstime: probe.first_start,
        started_at: probe.started_at,
        finished_at: probe.finished_at,
        identity,
        containers,
        guest,
        errors,
    }
}

/// The container runtime's socket of a machine, if it is there.
pub fn docker_socket(id: &Identity, exists: bool) -> (r: Result<String, String>)
    ensures
        match (id.docker_socket, exists) {
            (Some(s), true) => r == Ok::<String, String>(s),
            _ => r is Err && (r->Err_0)@
                == "No Docker socket for this VM; container usage unknown"@,
        },
{
    match &id.docker_socket {
        Some(s) => if exists {
            return Ok(s.clone());
        },
        None => {},
    }
    Err(text::copy("No Docker socket for this VM; container usage unknown"))
}

/// The two questions that a container runtime is asked.
#[derive(Debug, Clone, Copy, PartialEq, Eq)]
pub enum DockerQuery {
    Metadata,
    Statistics,
}

/// The arguments with which the runtime behind one socket is asked. The socket
/// is always named: no default context is used.
pub open spec fn docker_words(socket: Seq<char>, query: DockerQuery) -> Seq<Seq<char>> {
    let host = seq!["--host"@, "unix://"@ + socket];
    match query {
        DockerQuery::Metadata => host + seq![
            "ps"@,
            "--no-trunc"@,
            "--format"@,
            "{\"id\":{{json .ID}},\"image\":{{json .Image}},\"project\":{{json (.Label \"com.docker.compose.project\")}},\"service\":{{json (.Label \"com.docker.compose.service\")}}}"@,
        ],
        DockerQuery::Statistics => host + seq![
            "stats"@,
            "--no-stream"@,
            "--no-trunc"@,
            "--format"@,
            "{{json .}}"@,
        ],
    }
}

/// The arguments with which the runtime behind one socket is asked.
pub fn docker_arguments(socket: &str, query: DockerQuery) -> (r: Vec<String>)
    ensures
        texts(r@) == docker_words(socket@, query),
{
    let mut r: Vec<String> = Vec::new();
    r.push(text::copy("--host"));
    let mut host = text::copy("unix://");
    host.append(socket);
    r.push(host);
    match query {
        DockerQuery::Metadata => {
            r.push(text::copy("ps"));
            r.push(text::copy("--no-trunc"));
            r.push(text::copy("--format"));
            r.push(
                text::copy(
                    "{\"id\":{{json .ID}},\"image\":{{json .Image}},\"project\":{{json (.Label \"com.docker.compose.project\")}},\"service\":{{json (.Label \"com.docker.compose.service\")}}}",
                ),
            );
        },
        DockerQuery::Statistics => {
            r.push(text::copy("stats"));
            r.push(text::copy("--no-stream"));
            r.push(text::copy("--no-trunc"));
            r.push(text::copy("--format"));
            r.push(text::copy("{{json .}}"));
        },
    }
    proof {
        assert(texts(r@) =~= docker_words(socket@, query));
    }
    r
}

/// The program that asks a container runtime, and the variables that its
/// environment goes without: each of them could point it to another runtime.
pub fn docker_program() -> (r: (String, Vec<String>))
    ensures
        r.0@ == "docker"@,
        texts(r.1@) == seq![
            "DOCKER_CONTEXT"@,
            "DOCKER_HOST"@,
            "DOCKER_TLS_VERIFY"@,
            "DOCKER_CERT_PATH"@,
        ],
{
    let unset: Vec<String> = vec![
        text::copy("DOCKER_CONTEXT"),
        text::copy("DOCKER_HOST"),
        text::copy("DOCKER_TLS_VERIFY"),
        text::copy("DOCKER_CERT_PATH"),
    ];
    proof {
        assert(texts(unset@) =~= seq![
            "DOCKER_CONTEXT"@,
            "DOCKER_HOST"@,
            "DOCKER_TLS_VERIFY"@,
            "DOCKER_CERT_PATH"@,
        ]);
    }
    (text::copy("docker"), unset)
}

/// How the processes inside a machine are asked for: the home directory of the
/// instance tool, and its arguments; or why they cannot be asked for.
pub fn guest_arguments(id: &Identity, script: &str) -> (r: Result<(String, Vec<String>), String>)
    ensures
        match (id.lima_home, id.instance) {
            (None, _) => r is Err && (r->Err_0)@
                == "Guest process access is supported for Colima/Lima; Docker containers can still be shown"@,
            (Some(_), None) => r is Err && (r->Err_0)@ == "VM instance unknown"@,
            (Some(home), Some(instance)) => r is Ok && (r->Ok_0).0 == home && texts((r->Ok_0).1@)
                == seq!["shell"@, instance@, "--"@, "python3"@, "-c"@, script@],
        },
{
    let home = match &id.lima_home {
        Some(h) => h.clone(),
        None => return Err(
            text::copy(
                "Guest process access is supported for Colima/Lima; Docker containers can still be shown",
            ),
        ),
    };
    let instance = match &id.instance {
        Some(i) => i.clone(),
        None => return Err(text::copy("VM instance unknown")),
    };
    let ghost name = instance@;
    let mut r: Vec<String> = Vec::new();
    r.push(text::copy("shell"));
    r.push(instance);
    r.push(text::copy("--"));
    r.push(text::copy("python3"));
    r.push(text::copy("-c"));
    r.push(text::copy(script));
    proof {
        assert(texts(r@) =~= seq!["shell"@, name, "--"@, "python3"@, "-c"@, script@]);
    }
    Ok((home, r))
}

} // verus!
