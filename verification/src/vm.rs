//! Which virtual machine a process is, and what a probe of it found.
//!
//! Only the paths of open VM disk or firmware files identify a machine, and
//! only when they all point to one. The current Docker context is never used:
//! it may belong to a different machine.

use crate::text::{self, after_prefix, begins, ends, holds, lines_of, opt_text, parts, pieces};
use vstd::prelude::*;
use vstd::string::*;

verus! {

/// The virtual machine behind a process.
#[derive(Debug, Clone, PartialEq, Eq)]
pub struct Identity {
    pub tool: String,
    pub profile: Option<String>,
    pub lima_home: Option<String>,
    pub instance: Option<String>,
    pub docker_socket: Option<String>,
    pub evidence: String,
}

/// The texts of an `Identity`.
pub struct IdentityView {
    pub tool: Seq<char>,
    pub profile: Option<Seq<char>>,
    pub lima_home: Option<Seq<char>>,
    pub instance: Option<Seq<char>>,
    pub docker_socket: Option<Seq<char>>,
    pub evidence: Seq<char>,
}

impl View for Identity {
    type V = IdentityView;

    open spec fn view(&self) -> IdentityView {
        IdentityView {
            tool: self.tool@,
            profile: opt_text(self.profile),
            lima_home: opt_text(self.lima_home),
            instance: opt_text(self.instance),
            docker_socket: opt_text(self.docker_socket),
            evidence: self.evidence@,
        }
    }
}

/// A process with this name or executable runs a virtual machine.
pub open spec fn runs_vm(name: Seq<char>, path: Option<Seq<char>>) -> bool {
    ||| holds(name, "VirtualMachine"@)
    ||| begins(name, "qemu-system"@)
    ||| name == "vfkit"@
    ||| (path matches Some(p) && holds(p, "Virtualization.framework"@))
}

/// Whether a process with this name or executable runs a virtual machine.
pub fn is_vm(name: &str, path: Option<&str>) -> (r: bool)
    ensures
        r == runs_vm(
            name@,
            match path {
                Some(p) => Some(p@),
                None => None,
            },
        ),
{
    let n = text::chars(name);
    if text::contains(&n, "VirtualMachine") || text::starts_with(&n, "qemu-system") || text::same(
        &n,
        "vfkit",
    ) {
        return true;
    }
    match path {
        Some(p) => text::contains(&text::chars(p), "Virtualization.framework"),
        None => false,
    }
}

/// A path as the file system reads it: whether it starts at the root, whether
/// it starts at the current directory, and its named components. Repeated
/// slashes and inner dots name nothing.
pub open spec fn path_of(s: Seq<char>) -> (bool, bool, Seq<Seq<char>>) {
    let all = pieces(s, '/');
    let rooted = s.len() > 0 && s[0] == '/';
    (
        rooted,
        !rooted && all[0] == seq!['.'],
        all.filter(|p: Seq<char>| p.len() != 0 && p != seq!['.']),
    )
}

/// Two optional paths lead to the same place.
pub open spec fn same_place(a: Option<Seq<char>>, b: Option<Seq<char>>) -> bool {
    match (a, b) {
        (Some(a), Some(b)) => path_of(a) == path_of(b),
        (None, None) => true,
        _ => false,
    }
}

/// What an open file says about the machine that holds it.
pub enum Claim {
    /// It is no disk of a known kind.
    Nothing,
    /// It is a disk of an instance whose name the tool would not have given.
    Foreign,
    /// It is a disk of this machine.
    Machine(IdentityView),
}

/// The name of a disk or firmware file of a Lima instance.
pub open spec fn is_disk(leaf: Seq<char>) -> bool {
    leaf == "diffdisk"@ || leaf == "basedisk"@ || leaf == "vz-efi"@ || leaf == "cidata.iso"@
}

/// The instance directory and file name in a path with the given marker.
pub open spec fn instance_disk(file: Seq<char>, marker: Seq<char>) -> Option<
    (Seq<char>, Seq<char>),
> {
    match parts(file, marker) {
        None => None,
        Some((home, rest)) => match parts(rest, "/"@) {
            None => None,
            Some((instance, leaf)) => if !is_disk(leaf) || begins(instance, "_"@) {
                None
            } else {
                Some((home, instance))
            },
        },
    }
}

/// What an open file says about a Colima machine.
pub open spec fn colima_claim(file: Seq<char>) -> Claim {
    match instance_disk(file, "/.colima/_lima/"@) {
        None => Claim::Nothing,
        Some((home, instance)) => {
            let profile = if instance == "colima"@ {
                Some("default"@)
            } else {
                after_prefix(instance, "colima-"@)
            };
            match profile {
                None => Claim::Foreign,
                Some(p) => Claim::Machine(
                    IdentityView {
                        tool: "colima"@,
                        profile: Some(p),
                        lima_home: Some(home + "/.colima/_lima"@),
                        instance: Some(instance),
                        docker_socket: Some(home + "/.colima/"@ + p + "/docker.sock"@),
                        evidence: file,
                    },
                ),
            }
        },
    }
}

/// What an open file says about a Lima machine.
pub open spec fn lima_claim(file: Seq<char>) -> Claim {
    match instance_disk(file, "/.lima/"@) {
        None => Claim::Nothing,
        Some((home, instance)) => Claim::Machine(
            IdentityView {
                tool: "Lima"@,
                profile: Some(instance),
                lima_home: Some(home + "/.lima"@),
                instance: Some(instance),
                docker_socket: Some(home + "/.lima/"@ + instance + "/sock/docker.sock"@),
                evidence: file,
            },
        ),
    }
}

/// What an open file says about Docker Desktop.
pub open spec fn desktop_claim(file: Seq<char>) -> Option<IdentityView> {
    match parts(file, "/Library/Containers/com.docker.docker/"@) {
        Some((home, _)) if ends(file, "/Docker.raw"@) => Some(
            IdentityView {
                tool: "Docker Desktop"@,
                profile: None,
                lima_home: None,
                instance: None,
                docker_socket: Some(home + "/.docker/run/docker.sock"@),
                evidence: file,
            },
        ),
        _ => None,
    }
}

/// The two identities name one machine.
pub open spec fn same_machine(a: IdentityView, b: IdentityView) -> bool {
    a.tool == b.tool && same_place(a.lima_home, b.lima_home) && a.instance == b.instance
}

/// The machine is among the candidates.
pub open spec fn among(found: Seq<IdentityView>, id: IdentityView) -> bool {
    exists|i: int| 0 <= i < found.len() && same_machine(#[trigger] found[i], id)
}

/// The candidates after one more claim; `None` once a claim was foreign.
pub open spec fn with_claim(found: Option<Seq<IdentityView>>, claim: Claim) -> Option<
    Seq<IdentityView>,
> {
    match (found, claim) {
        (None, _) => None,
        (Some(f), Claim::Nothing) => Some(f),
        (Some(_), Claim::Foreign) => None,
        (Some(f), Claim::Machine(id)) => if among(f, id) {
            Some(f)
        } else {
            Some(f.push(id))
        },
    }
}

/// The candidates after one more open file.
pub open spec fn with_file(found: Option<Seq<IdentityView>>, file: Seq<char>) -> Option<
    Seq<IdentityView>,
> {
    let lima = with_claim(with_claim(found, colima_claim(file)), lima_claim(file));
    match (lima, desktop_claim(file)) {
        (Some(f), Some(id)) => Some(f.push(id)),
        _ => lima,
    }
}

/// The candidates that the lines of a file listing name; a line that starts
/// with `n` holds the path of one open file.
pub open spec fn candidates(lines: Seq<Seq<char>>) -> Option<Seq<IdentityView>>
    decreases lines.len(),
{
    if lines.len() == 0 {
        Some(Seq::empty())
    } else {
        let found = candidates(lines.drop_last());
        match after_prefix(lines.last(), "n"@) {
            None => found,
            Some(file) => with_file(found, file),
        }
    }
}

/// The one machine that a file listing names. Ambiguous evidence names none.
pub open spec fn identity_in(files: Seq<char>) -> Option<IdentityView> {
    match candidates(lines_of(files)) {
        Some(f) => if f.len() == 1 {
            Some(f[0])
        } else {
            None
        },
        None => None,
    }
}

/// The views of a run of identities.
pub open spec fn ids(v: Seq<Identity>) -> Seq<IdentityView> {
    v.map_values(|i: Identity| i@)
}

/// The named components of a path, with where it starts.
fn path_parts(s: &str) -> (r: (bool, bool, Vec<Vec<char>>))
    ensures
        (r.0, r.1, text::views(r.2@)) == path_of(s@),
{
    let cs = text::chars(s);
    let all = text::split(&cs, '/');
    let rooted: bool = cs.len() > 0 && cs[0] == '/';
    proof {
        text::pieces_not_empty(s@, '/');
        assert(text::views(all@).len() == all@.len());
        assert(text::views(all@)[0] == all@[0]@);
        reveal(Seq::filter);
        reveal_strlit(".");
        assert("."@ =~= seq!['.']);
    }
    let dotted: bool = !rooted && text::same(&all[0], ".");
    let mut named: Vec<Vec<char>> = Vec::new();
    let mut i: usize = 0;
    let ghost keep = |p: Seq<char>| p.len() != 0 && p != seq!['.'];
    let ghost whole = text::views(all@);
    while i < all.len()
        invariant
            i <= all@.len(),
            whole == text::views(all@),
            keep == (|p: Seq<char>| p.len() != 0 && p != seq!['.']),
            "."@ == seq!['.'],
            text::views(named@) == whole.take(i as int).filter(keep),
        decreases all.len() - i,
    {
        proof {
            reveal(Seq::filter);
            assert(whole.take(i + 1).drop_last() =~= whole.take(i as int));
            assert(whole[i as int] == all@[i as int]@);
        }
        if all[i].len() != 0 && !text::same(&all[i], ".") {
            let ghost before = named@;
            let c = text::piece(&all[i], 0, all[i].len());
            proof {
                assert(c@ =~= all@[i as int]@);
            }
            let ghost cv = c@;
            named.push(c);
            proof {
                assert(text::views(named@) =~= text::views(before).push(cv));
            }
        }
        i += 1;
    }
    proof {
        assert(whole.take(all@.len() as int) =~= whole);
    }
    (rooted, dotted, named)
}

fn same_runs(a: &Vec<Vec<char>>, b: &Vec<Vec<char>>) -> (r: bool)
    ensures
        r == (text::views(a@) == text::views(b@)),
{
    if a.len() != b.len() {
        proof {
            assert(text::views(a@).len() != text::views(b@).len());
        }
        return false;
    }
    let mut i: usize = 0;
    while i < a.len()
        invariant
            i <= a@.len() == b@.len(),
            forall|j: int| 0 <= j < i ==> a@[j]@ == b@[j]@,
        decreases a.len() - i,
    {
        if !text::alike(&a[i], &b[i]) {
            proof {
                assert(text::views(a@)[i as int] != text::views(b@)[i as int]);
            }
            return false;
        }
        i += 1;
    }
    proof {
        assert(text::views(a@) =~= text::views(b@));
    }
    true
}

/// Whether two optional paths lead to the same place.
pub fn paths_agree(a: &Option<String>, b: &Option<String>) -> (r: bool)
    ensures
        r == same_place(opt_text(*a), opt_text(*b)),
{
    match (a, b) {
        (Some(a), Some(b)) => {
            let x = path_parts(a.as_str());
            let y = path_parts(b.as_str());
            x.0 == y.0 && x.1 == y.1 && same_runs(&x.2, &y.2)
        },
        (None, None) => true,
        _ => false,
    }
}

fn known(found: &Vec<Identity>, id: &Identity) -> (r: bool)
    ensures
        r == among(ids(found@), id@),
{
    let mut i: usize = 0;
    while i < found.len()
        invariant
            i <= found@.len(),
            forall|j: int| 0 <= j < i ==> !same_machine(#[trigger] ids(found@)[j], id@),
        decreases found.len() - i,
    {
        let c = &found[i];
        proof {
            assert(ids(found@)[i as int] == c@);
        }
        if c.tool == id.tool && paths_agree(&c.lima_home, &id.lima_home) && text::same_opt(
            &c.instance,
            &id.instance,
        ) {
            return true;
        }
        i += 1;
    }
    false
}

/// The home directory and instance that a disk path with the marker names.
fn disk_of(file: &Vec<char>, marker: &str) -> (r: Option<(Vec<char>, Vec<char>)>)
    ensures
        match r {
            Some((h, i)) => instance_disk(file@, marker@) == Some((h@, i@)),
            None => instance_disk(file@, marker@) is None,
        },
{
    let (home, rest) = match text::split_once(file, marker) {
        Some(p) => p,
        None => return None,
    };
    let (instance, leaf) = match text::split_once(&rest, "/") {
        Some(p) => p,
        None => return None,
    };
    let disk: bool = text::same(&leaf, "diffdisk") || text::same(&leaf, "basedisk") || text::same(
        &leaf,
        "vz-efi",
    ) || text::same(&leaf, "cidata.iso");
    if !disk || text::starts_with(&instance, "_") {
        return None;
    }
    Some((home, instance))
}

/// `head` followed by `tail`.
fn glue(head: &Vec<char>, tail: &str) -> (r: String)
    ensures
        r@ == head@ + tail@,
{
    let mut r = text::text(head);
    r.append(tail);
    r
}

fn colima(home: &Vec<char>, instance: &Vec<char>, profile: &Vec<char>, file: &Vec<char>) -> (r:
    Identity)
    ensures
        r@ == (IdentityView {
            tool: "colima"@,
            profile: Some(profile@),
            lima_home: Some(home@ + "/.colima/_lima"@),
            instance: Some(instance@),
            docker_socket: Some(home@ + "/.colima/"@ + profile@ + "/docker.sock"@),
            evidence: file@,
        }),
{
    let mut socket = glue(home, "/.colima/");
    socket.append(text::text(profile).as_str());
    socket.append("/docker.sock");
    Identity {
        tool: text::copy("colima"),
        profile: Some(text::text(profile)),
        lima_home: Some(glue(home, "/.colima/_lima")),
        instance: Some(text::text(instance)),
        docker_socket: Some(socket),
        evidence: text::text(file),
    }
}

fn lima(home: &Vec<char>, instance: &Vec<char>, file: &Vec<char>) -> (r: Identity)
    ensures
        r@ == (IdentityView {
            tool: "Lima"@,
            profile: Some(instance@),
            lima_home: Some(home@ + "/.lima"@),
            instance: Some(instance@),
            docker_socket: Some(home@ + "/.lima/"@ + instance@ + "/sock/docker.sock"@),
            evidence: file@,
        }),
{
    let mut socket = glue(home, "/.lima/");
    socket.append(text::text(instance).as_str());
    socket.append("/sock/docker.sock");
    Identity {
        tool: text::copy("Lima"),
        profile: Some(text::text(instance)),
        lima_home: Some(glue(home, "/.lima")),
        instance: Some(text::text(instance)),
        docker_socket: Some(socket),
        evidence: text::text(file),
    }
}

/// Adds a candidate that is not yet known.
fn add_new(found: &mut Vec<Identity>, id: Identity)
    ensures
        with_claim(Some(ids(old(found)@)), Claim::Machine(id@)) == Some(ids(final(found)@)),
{
    if !known(found, &id) {
        let ghost before = found@;
        let ghost v = id@;
        found.push(id);
        proof {
            assert(ids(found@) =~= ids(before).push(v));
        }
    }
}

/// Adds what one open file claims; false if a claim was foreign.
fn scan(found: &mut Vec<Identity>, file: &Vec<char>) -> (r: bool)
    ensures
        r ==> with_file(Some(ids(old(found)@)), file@) == Some(ids(final(found)@)),
        !r ==> with_file(Some(ids(old(found)@)), file@) is None,
{
    if let Some((home, instance)) = disk_of(file, "/.colima/_lima/") {
        if text::same(&instance, "colima") {
            let profile = text::chars("default");
            add_new(found, colima(&home, &instance, &profile, file));
        } else {
            match text::strip_prefix(&instance, "colima-") {
                Some(profile) => {
                    add_new(found, colima(&home, &instance, &profile, file));
                },
                None => return false,
            }
        }
    }
    if let Some((home, instance)) = disk_of(file, "/.lima/") {
        add_new(found, lima(&home, &instance, file));
    }
    if let Some((home, _)) = text::split_once(file, "/Library/Containers/com.docker.docker/") {
        if text::ends_with(file, "/Docker.raw") {
            let id = Identity {
                tool: text::copy("Docker Desktop"),
                profile: None,
                lima_home: None,
                instance: None,
                docker_socket: Some(glue(&home, "/.docker/run/docker.sock")),
                evidence: text::text(file),
            };
            let ghost before = found@;
            let ghost v = id@;
            found.push(id);
            proof {
                assert(ids(found@) =~= ids(before).push(v));
            }
        }
    }
    true
}

proof fn foreign_stays(lines: Seq<Seq<char>>, n: int)
    requires
        0 <= n <= lines.len(),
        candidates(lines.take(n)) is None,
    ensures
        candidates(lines) is None,
    decreases lines.len() - n,
{
    if n < lines.len() {
        assert(lines.take(n + 1).drop_last() =~= lines.take(n));
        foreign_stays(lines, n + 1);
    } else {
        assert(lines.take(n) =~= lines);
    }
}

/// The one machine that a listing of open files names, if it names just one.
pub fn identify(files: &str) -> (r: Option<Identity>)
    ensures
        match r {
            Some(id) => identity_in(files@) == Some(id@),
            None => identity_in(files@) is None,
        },
{
    let lines = text::lines(&text::chars(files));
    let ghost all = text::views(lines@);
    let mut found: Vec<Identity> = Vec::new();
    let mut i: usize = 0;
    proof {
        assert(ids(found@) =~= Seq::<IdentityView>::empty());
        assert(all.take(0) =~= Seq::<Seq<char>>::empty());
    }
    while i < lines.len()
        invariant
            i <= lines@.len(),
            all == text::views(lines@),
            all == lines_of(files@),
            candidates(all.take(i as int)) == Some(ids(found@)),
        decreases lines.len() - i,
    {
        proof {
            assert(all.take(i + 1).drop_last() =~= all.take(i as int));
            assert(all.take(i + 1).last() == lines@[i as int]@);
        }
        if let Some(file) = text::strip_prefix(&lines[i], "n") {
            if !scan(&mut found, &file) {
                proof {
                    foreign_stays(all, i + 1);
                }
                return None;
            }
        }
        i += 1;
    }
    proof {
        assert(all.take(all.len() as int) =~= all);
        assert(ids(found@).len() == found@.len());
    }
    if found.len() == 1 {
        proof {
            assert(ids(found@)[0] == found@[0]@);
        }
        found.pop()
    } else {
        None
    }
}

/// An open file names a machine.
pub open spec fn evidence_of(file: Seq<char>, id: IdentityView) -> bool {
    ||| colima_claim(file) == Claim::Machine(id)
    ||| lima_claim(file) == Claim::Machine(id)
    ||| desktop_claim(file) == Some(id)
}

/// A line of a file listing names a machine.
pub open spec fn line_names(line: Seq<char>, id: IdentityView) -> bool {
    after_prefix(line, "n"@) matches Some(file) && evidence_of(file, id)
}

proof fn among_survives(found: Seq<IdentityView>, more: IdentityView, id: IdentityView)
    requires
        among(found, id),
    ensures
        among(found.push(more), id),
{
    let i = choose|i: int| 0 <= i < found.len() && same_machine(#[trigger] found[i], id);
    assert(found.push(more)[i] == found[i]);
}

proof fn a_claim_keeps_candidates(
    found: Option<Seq<IdentityView>>,
    claim: Claim,
    id: IdentityView,
)
    ensures
        ({
            let next = with_claim(found, claim);
            next is Some ==> found is Some && (among(found->0, id) || claim == Claim::Machine(id)
                ==> among(next->0, id))
        }),
{
    if let (Some(f), Claim::Machine(m)) = (found, claim) {
        if !among(f, m) {
            assert(f.push(m)[f.len() as int] == m);
            if among(f, id) {
                among_survives(f, m, id);
            }
        }
    }
}

pub(crate) proof fn a_file_keeps_candidates(
    found: Option<Seq<IdentityView>>,
    file: Seq<char>,
    id: IdentityView,
)
    ensures
        with_file(found, file) is Some ==> found is Some && (among(found->0, id) || evidence_of(
            file,
            id,
        ) ==> among(with_file(found, file)->0, id)),
{
    let first = with_claim(found, colima_claim(file));
    let second = with_claim(first, lima_claim(file));
    a_claim_keeps_candidates(found, colima_claim(file), id);
    a_claim_keeps_candidates(first, lima_claim(file), id);
    if let (Some(f), Some(d)) = (second, desktop_claim(file)) {
        assert(f.push(d)[f.len() as int] == d);
        if among(f, id) {
            among_survives(f, d, id);
        }
    }
}

proof fn named_machines_are_candidates(lines: Seq<Seq<char>>, i: int, id: IdentityView)
    requires
        0 <= i < lines.len(),
        line_names(lines[i], id),
    ensures
        candidates(lines) is Some ==> among(candidates(lines)->0, id),
    decreases lines.len(),
{
    let before = lines.drop_last();
    if let Some(file) = after_prefix(lines.last(), "n"@) {
        a_file_keeps_candidates(candidates(before), file, id);
    }
    if i < lines.len() - 1 {
        assert(before[i] == lines[i]);
        named_machines_are_candidates(before, i, id);
    }
}

/// Ambiguous evidence directs no probe anywhere: a listing of open files that
/// names two machines identifies none.
pub proof fn ambiguous_evidence_identifies_nothing(
    files: Seq<char>,
    i: int,
    j: int,
    a: IdentityView,
    b: IdentityView,
)
    requires
        0 <= i < lines_of(files).len(),
        0 <= j < lines_of(files).len(),
        line_names(lines_of(files)[i], a),
        line_names(lines_of(files)[j], b),
        !same_machine(a, b),
    ensures
        identity_in(files) is None,
{
    let lines = lines_of(files);
    named_machines_are_candidates(lines, i, a);
    named_machines_are_candidates(lines, j, b);
    if let Some(found) = candidates(lines) {
        if found.len() == 1 {
            assert(same_machine(found[0], a));
            assert(same_machine(found[0], b));
        }
    }
}

/// Every candidate is named by some line.
spec fn all_named(found: Seq<IdentityView>, lines: Seq<Seq<char>>) -> bool {
    forall|k: int|
        0 <= k < found.len() ==> exists|i: int|
            0 <= i < lines.len() && line_names(#[trigger] lines[i], #[trigger] found[k])
}

proof fn candidates_are_named(lines: Seq<Seq<char>>)
    ensures
        candidates(lines) is Some ==> all_named(candidates(lines)->0, lines),
    decreases lines.len(),
{
    if lines.len() > 0 {
        let before = lines.drop_last();
        candidates_are_named(before);
        if let (Some(f), Some(found)) = (candidates(before), candidates(lines)) {
            assert forall|k: int| 0 <= k < found.len() implies exists|i: int|
                0 <= i < lines.len() && line_names(
                    #[trigger] lines[i],
                    #[trigger] found[k],
                ) by {
                if k < f.len() {
                    assert(found[k] == f[k]);
                    let i = choose|i: int|
                        0 <= i < before.len() && line_names(#[trigger] before[i], f[k]);
                    assert(lines[i] == before[i]);
                    assert(line_names(lines[i], found[k]));
                } else {
                    assert(line_names(lines[lines.len() - 1], found[k]));
                }
            }
        }
    }
}

/// A machine is identified by evidence alone: some open file in the listing
/// is a disk of that very machine.
pub proof fn an_identity_has_evidence(files: Seq<char>)
    requires
        identity_in(files) is Some,
    ensures
        exists|i: int|
            0 <= i < lines_of(files).len() && line_names(
                #[trigger] lines_of(files)[i],
                identity_in(files)->0,
            ),
{
    let lines = lines_of(files);
    candidates_are_named(lines);
    let found = candidates(lines)->0;
    let i = choose|i: int| 0 <= i < lines.len() && line_names(#[trigger] lines[i], found[0]);
    assert(line_names(lines_of(files)[i], identity_in(files)->0));
}

} // verus!
