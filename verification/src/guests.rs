//! What is known of virtual machines, their containers and their processes.

use crate::docker::{
    cpu_keys, container_of, joined, meta_in, metadata_of, ranked, stat_in, Container, ContainerView,
    Members, MetaView, StatView,
};
use crate::inspection::{
    conclusive, container_text, containers_text, docker_words, errors_text, guest_heading, name_of,
    owner_of, probe_errors, process_text, processes_text, replaced, width, within, DockerQuery,
    Guest, GuestProcess, Inspection, Probe,
};
use crate::notation::{
    ranking_is_descending, searches_find_only_what_is_there, searches_find_what_was_put_there,
    splits_are_at_the_first, decimals_write_the_nearest, writes,
};
use crate::num::{digits, known_micro, left, right, signed_digits};
use crate::order::{key_of, ranking};
use crate::percent::percent_of;
use crate::text::{begins, lines_of, first_from_is_least, holds, parts};
use crate::vm::{
    candidates, colima_claim, desktop_claim, identity_in, lima_claim, same_machine, Claim,
    IdentityView,
};
use vstd::prelude::*;

verus! {

/// The separator stands nowhere in the text before `a` ends.
pub open spec fn first_behind(s: Seq<char>, a: Seq<char>, sep: Seq<char>) -> bool {
    forall|j: int|
        0 <= j < a.len() && j + sep.len() <= s.len() ==> #[trigger] s.subrange(j, j + sep.len())
            != sep
}

/// A text is split where the separator first stands.
pub proof fn a_split_is_what_was_joined(a: Seq<char>, sep: Seq<char>, b: Seq<char>)
    requires
        first_behind(a + sep + b, a, sep),
    ensures
        parts(a + sep + b, sep) == Some((a, b)),
{
    let s = a + sep + b;
    splits_are_at_the_first(s, sep);
    let n = a.len() as int;
    assert(s.subrange(n, n + sep.len()) =~= sep);
    match parts(s, sep) {
        Some((x, y)) => {
            assert(s == x + sep + y);
            if x.len() < a.len() {
                assert(s.subrange(x.len() as int, (x.len() + sep.len()) as int) =~= sep);
            }
            if a.len() < x.len() {
                assert(s.subrange(n, n + sep.len()) != sep);
            }
            assert(x =~= s.take(n));
            assert(a =~= s.take(n));
            assert(y =~= s.skip(n + sep.len()));
            assert(b =~= s.skip(n + sep.len()));
        },
        None => {
            assert(s.subrange(n, n + sep.len()) != sep);
        },
    }
}

proof fn a_directory_ends_at_its_slash(instance: Seq<char>, leaf: Seq<char>)
    requires
        !instance.contains('/'),
    ensures
        parts(instance + "/"@ + leaf, "/"@) == Some((instance, leaf)),
{
    reveal_strlit("/");
    let s = instance + "/"@ + leaf;
    assert forall|j: int| 0 <= j < instance.len() && j + "/"@.len() <= s.len() implies
        #[trigger] s.subrange(j, j + "/"@.len()) != "/"@ by {
        assert(s.subrange(j, j + "/"@.len())[0] == instance[j]);
        assert(instance.contains(instance[j]));
        assert("/"@[0] == '/');
    }
    a_split_is_what_was_joined(instance, "/"@, leaf);
}

/// The file is one that an instance of Lima keeps open.
pub open spec fn is_kept_open(leaf: Seq<char>) -> bool {
    leaf == "diffdisk"@ || leaf == "basedisk"@ || leaf == "vz-efi"@ || leaf == "cidata.iso"@
}

/// A disk under `.colima/_lima` is that of a Colima profile: the default one in
/// the directory `colima`, another in that with its name behind `colima-`. In
/// any other directory it is foreign. Directories with an underscore are none of
/// an instance, and other files are no disks.
pub proof fn colima_disks_name_their_profile(
    home: Seq<char>,
    instance: Seq<char>,
    leaf: Seq<char>,
    profile: Seq<char>,
)
    requires
        !instance.contains('/'),
        first_behind(
            home + "/.colima/_lima/"@ + (instance + "/"@ + leaf),
            home,
            "/.colima/_lima/"@,
        ),
    ensures
        ({
            let file = home + "/.colima/_lima/"@ + (instance + "/"@ + leaf);
            let disk = is_kept_open(leaf) && (instance.len() == 0 || instance[0] != '_');
            let here = IdentityView {
                tool: "colima"@,
                profile: Some(profile),
                lima_home: Some(home + "/.colima/_lima"@),
                instance: Some(instance),
                docker_socket: Some(home + "/.colima/"@ + profile + "/docker.sock"@),
                evidence: file,
            };
            &&& !disk ==> colima_claim(file) is Nothing
            &&& disk && instance == "colima"@ && profile == "default"@ ==> colima_claim(file)
                == Claim::Machine(here)
            &&& disk && instance == "colima-"@ + profile ==> colima_claim(file) == Claim::Machine(
                here,
            )
            &&& disk && instance != "colima"@ && !begins(instance, "colima-"@) ==> colima_claim(
                file,
            ) is Foreign
        }),
{
    a_split_is_what_was_joined(home, "/.colima/_lima/"@, instance + "/"@ + leaf);
    a_directory_ends_at_its_slash(instance, leaf);
    underscores_begin(instance);
    searches_find_what_was_put_there(seq![], "colima-"@, profile);
    reveal_strlit("colima");
    reveal_strlit("colima-");
    if instance == "colima-"@ + profile {
        assert(instance.len() >= 7);
    }
}

proof fn underscores_begin(s: Seq<char>)
    ensures
        begins(s, "_"@) <==> s.len() > 0 && s[0] == '_',
{
    reveal_strlit("_");
    if s.len() > 0 && s[0] == '_' {
        assert(s.subrange(0, 1) =~= "_"@);
    }
    if begins(s, "_"@) {
        assert(s.subrange(0, 1)[0] == '_');
    }
}

/// A disk under `.lima` is that of the instance whose directory it is in.
pub proof fn lima_disks_name_their_instance(home: Seq<char>, instance: Seq<char>, leaf: Seq<char>)
    requires
        !instance.contains('/'),
        first_behind(home + "/.lima/"@ + (instance + "/"@ + leaf), home, "/.lima/"@),
    ensures
        ({
            let file = home + "/.lima/"@ + (instance + "/"@ + leaf);
            let disk = is_kept_open(leaf) && (instance.len() == 0 || instance[0] != '_');
            &&& !disk ==> lima_claim(file) is Nothing
            &&& disk ==> lima_claim(file) == Claim::Machine(
                IdentityView {
                    tool: "Lima"@,
                    profile: Some(instance),
                    lima_home: Some(home + "/.lima"@),
                    instance: Some(instance),
                    docker_socket: Some(home + "/.lima/"@ + instance + "/sock/docker.sock"@),
                    evidence: file,
                },
            )
        }),
{
    a_split_is_what_was_joined(home, "/.lima/"@, instance + "/"@ + leaf);
    a_directory_ends_at_its_slash(instance, leaf);
    underscores_begin(instance);
}

/// A file that ends in `/Docker.raw` in the container of Docker Desktop is its
/// disk; its socket is in the home directory.
pub proof fn the_desktop_disk_names_docker_desktop(home: Seq<char>, rest: Seq<char>)
    requires
        first_behind(
            home + "/Library/Containers/com.docker.docker/"@ + (rest + "/Docker.raw"@),
            home,
            "/Library/Containers/com.docker.docker/"@,
        ),
    ensures
        ({
            let file = home + "/Library/Containers/com.docker.docker/"@ + (rest + "/Docker.raw"@);
            desktop_claim(file) == Some(
                IdentityView {
                    tool: "Docker Desktop"@,
                    profile: None,
                    lima_home: None,
                    instance: None,
                    docker_socket: Some(home + "/.docker/run/docker.sock"@),
                    evidence: file,
                },
            )
        }),
{
    let m = "/Library/Containers/com.docker.docker/"@;
    a_split_is_what_was_joined(home, m, rest + "/Docker.raw"@);
    searches_find_what_was_put_there(home + m + rest, "/Docker.raw"@, seq![]);
    assert(home + m + (rest + "/Docker.raw"@) =~= home + m + rest + "/Docker.raw"@);
}

/// A file elsewhere is no evidence.
pub proof fn other_files_name_nothing(file: Seq<char>)
    ensures
        !holds(file, "/.colima/_lima/"@) ==> colima_claim(file) is Nothing,
        !holds(file, "/.lima/"@) ==> lima_claim(file) is Nothing,
        !holds(file, "/Library/Containers/com.docker.docker/"@) ==> desktop_claim(file) is None,
        desktop_claim(file) is Some ==> file.len() >= "/Docker.raw"@.len() && file.skip(
            file.len() - "/Docker.raw"@.len(),
        ) == "/Docker.raw"@,
{
    first_from_is_least(file, "/.colima/_lima/"@, 0);
    first_from_is_least(file, "/.lima/"@, 0);
    first_from_is_least(file, "/Library/Containers/com.docker.docker/"@, 0);
    searches_find_only_what_is_there(file, "/Docker.raw"@);
}

/// Only lines that begin with `n` name files. A file of a machine that is
/// already known adds nothing, one of another machine adds it, one that is no
/// evidence leaves everything as it is, and a foreign one ends the search.
pub proof fn files_are_taken_one_by_one(
    lines: Seq<Seq<char>>,
    line: Seq<char>,
    file: Seq<char>,
    found: Seq<IdentityView>,
    id: IdentityView,
)
    requires
        candidates(lines) == Some(found),
        line.len() == 0 || line[0] != 'n',
    ensures
        candidates(seq![]) == Some(Seq::<IdentityView>::empty()),
        candidates(lines.push(line)) == Some(found),
        ({
            let next = candidates(lines.push("n"@ + file));
            let (c, m, d) = (colima_claim(file), lima_claim(file), desktop_claim(file));
            let known = exists|i: int| 0 <= i < found.len() && #[trigger] same_machine(found[i], id);
            &&& c is Nothing && m is Nothing && d is None ==> next == Some(found)
            &&& c is Foreign || m is Foreign ==> next is None
            &&& m is Nothing && d is None && c == Claim::Machine(id) && known ==> next == Some(
                found,
            )
            &&& m is Nothing && d is None && c == Claim::Machine(id) && !known ==> next == Some(
                found.push(id),
            )
            &&& c is Nothing && d is None && m == Claim::Machine(id) && known ==> next == Some(
                found,
            )
            &&& c is Nothing && d is None && m == Claim::Machine(id) && !known ==> next == Some(
                found.push(id),
            )
            &&& c is Nothing && m is Nothing && d == Some(id) ==> next == Some(found.push(id))
        }),
{
    reveal_strlit("n");
    searches_find_what_was_put_there(seq![], "n"@, file);
    assert(lines.push(line).drop_last() =~= lines);
    assert(lines.push("n"@ + file).drop_last() =~= lines);
    if begins(line, "n"@) {
        assert(line.subrange(0, 1)[0] == 'n');
    }
    let known = exists|i: int| 0 <= i < found.len() && #[trigger] same_machine(found[i], id);
    assert(known <==> crate::vm::among(found, id));
}

/// The metadata of a container are the first with its number. A name, image or
/// figure that is missing is unknown, an empty label is none, and a figure that
/// is no number is not guessed.
pub proof fn containers_are_joined_by_number(row: StatView, meta: Seq<MetaView>, k: int)
    requires
        row.id is Some,
        0 <= k <= meta.len(),
        forall|i: int| 0 <= i < k ==> (#[trigger] meta[i]).id != row.id,
        k < meta.len() ==> meta[k].id == row.id,
    ensures
        ({
            let c = container_of(row, meta);
            let m = meta[k];
            &&& Some(c.id) == row.id
            &&& c.name == (match row.name {
                Some(n) => n,
                None => "unknown"@,
            })
            &&& k == meta.len() ==> c.image == "unknown"@ && c.project is None && c.service is None
            &&& k < meta.len() ==> {
                &&& c.image == (if m.image is Some && m.image->0.len() > 0 {
                    m.image->0
                } else {
                    "unknown"@
                })
                &&& m.project is Some && m.project->0.len() > 0 ==> c.project == m.project
                &&& m.project is None || m.project->0.len() == 0 ==> c.project is None
                &&& m.service is Some && m.service->0.len() > 0 ==> c.service == m.service
                &&& m.service is None || m.service->0.len() == 0 ==> c.service is None
            }
            &&& row.cpu is Some ==> c.cpu_percent == percent_of(row.cpu->0)
            &&& row.cpu is None ==> c.cpu_percent == percent_of("unknown"@)
            &&& c.memory == (match row.memory {
                Some(t) => t,
                None => "unknown"@,
            })
            &&& c.net_io == (match row.net_io {
                Some(t) => t,
                None => "unknown"@,
            })
            &&& c.block_io == (match row.block_io {
                Some(t) => t,
                None => "unknown"@,
            })
        }),
{
    first_metadata(meta, row.id->0, k);
}

proof fn first_metadata(meta: Seq<MetaView>, id: Seq<char>, k: int)
    requires
        0 <= k <= meta.len(),
        forall|i: int| 0 <= i < k ==> (#[trigger] meta[i]).id != Some(id),
        k < meta.len() ==> meta[k].id == Some(id),
    ensures
        k == meta.len() ==> metadata_of(meta, id) is None,
        k < meta.len() ==> metadata_of(meta, id) == Some(meta[k]),
    decreases meta.len(),
{
    if meta.len() > 0 && k > 0 {
        assert(meta[0].id != Some(id));
        let rest = meta.skip(1);
        assert forall|i: int| 0 <= i < k - 1 implies (#[trigger] rest[i]).id != Some(id) by {
            assert(rest[i] == meta[i + 1]);
        }
        first_metadata(rest, id, k - 1);
    }
}

/// A row of statistics and one of metadata are read from these members.
pub proof fn rows_are_read_from_their_members(m: Members)
    ensures
        ({
            let s = stat_in(m);
            &&& s.id is Some <==> m.contains_key("ID"@)
            &&& s.id is Some ==> s.id->0 == m["ID"@]
            &&& s.name is Some <==> m.contains_key("Name"@)
            &&& s.name is Some ==> s.name->0 == m["Name"@]
            &&& s.cpu is Some <==> m.contains_key("CPUPerc"@)
            &&& s.cpu is Some ==> s.cpu->0 == m["CPUPerc"@]
            &&& s.memory is Some <==> m.contains_key("MemUsage"@)
            &&& s.memory is Some ==> s.memory->0 == m["MemUsage"@]
            &&& s.net_io is Some <==> m.contains_key("NetIO"@)
            &&& s.net_io is Some ==> s.net_io->0 == m["NetIO"@]
            &&& s.block_io is Some <==> m.contains_key("BlockIO"@)
            &&& s.block_io is Some ==> s.block_io->0 == m["BlockIO"@]
        }),
        ({
            let t = meta_in(m);
            &&& t.id is Some <==> m.contains_key("id"@)
            &&& t.id is Some ==> t.id->0 == m["id"@]
            &&& t.image is Some <==> m.contains_key("image"@)
            &&& t.image is Some ==> t.image->0 == m["image"@]
            &&& t.project is Some <==> m.contains_key("project"@)
            &&& t.project is Some ==> t.project->0 == m["project"@]
            &&& t.service is Some <==> m.contains_key("service"@)
            &&& t.service is Some ==> t.service->0 == m["service"@]
        }),
{
}

/// Containers come with the busiest first, and those whose use is unknown last.
/// A row without a number is an error for all.
pub proof fn the_busiest_container_comes_first(rows: Seq<StatView>, meta: Seq<MetaView>)
    requires
        rows.len() <= usize::MAX,
    ensures
        (exists|i: int| 0 <= i < rows.len() && (#[trigger] rows[i]).id is None) ==> joined(
            rows,
            meta,
        ) == Err::<Seq<ContainerView>, Seq<char>>("Docker stats missing ID"@),
        (forall|i: int| 0 <= i < rows.len() ==> (#[trigger] rows[i]).id is Some) ==> {
            let cs = joined(rows, meta)->Ok_0;
            &&& joined(rows, meta) is Ok
            &&& cs.len() == rows.len()
            &&& forall|p: int, q: int|
                #![trigger cs[p], cs[q]]
                0 <= p < q < cs.len() ==> {
                    &&& cs[q].cpu_percent is Some ==> cs[p].cpu_percent is Some
                    &&& cs[q].cpu_percent is Some ==> cs[p].cpu_percent->0 >= cs[q].cpu_percent->0
                }
        },
{
    if forall|i: int| 0 <= i < rows.len() ==> (#[trigger] rows[i]).id is Some {
        let all = rows.map_values(|r: StatView| container_of(r, meta));
        let keys = cpu_keys(all);
        let cs = ranked(all);
        ranking_is_descending(keys);
        assert forall|p: int, q: int|
            #![trigger cs[p], cs[q]]
            0 <= p < q < cs.len() implies {
            &&& cs[q].cpu_percent is Some ==> cs[p].cpu_percent is Some
            &&& cs[q].cpu_percent is Some ==> cs[p].cpu_percent->0 >= cs[q].cpu_percent->0
        } by {
            let (i, j) = (ranking(keys)[p] as int, ranking(keys)[q] as int);
            assert(cs[p] == all[i] && cs[q] == all[j]);
            assert(keys[i] == (key_of(all[i].cpu_percent), 0u128));
            assert(keys[j] == (key_of(all[j].cpu_percent), 0u128));
        }
    }
}

/// A process belongs to the first container with its number; one of an unknown
/// container is named by the first twelve characters of the number, and one
/// without is the machine's own.
pub proof fn processes_are_named_by_their_container(
    cs: Option<Vec<Container>>,
    p: GuestProcess,
    k: int,
)
    requires
        p.container_id is Some && cs is Some ==> {
            &&& 0 <= k <= cs->0@.len()
            &&& forall|i: int| 0 <= i < k ==> (#[trigger] cs->0@[i]).id@ != p.container_id->0@
            &&& k < cs->0@.len() ==> cs->0@[k].id@ == p.container_id->0@
        },
    ensures
        p.container_id is Some && cs is Some && k < cs->0@.len() ==> owner_of(cs, p)
            == cs->0@[k].name@,
        p.container_id is Some && (cs is None || k == cs->0@.len()) ==> owner_of(cs, p)
            == "container "@ + within(p.container_id->0@, 12),
        p.container_id is None && p.cgroup is Some ==> owner_of(cs, p) == "VM / unmapped cgroup"@,
        p.container_id is None && p.cgroup is None ==> owner_of(cs, p)
            == "unknown (cgroup unreadable)"@,
{
    if p.container_id is Some && cs is Some {
        first_name(cs->0@, p.container_id->0@, k);
    }
}

proof fn first_name(cs: Seq<Container>, id: Seq<char>, k: int)
    requires
        0 <= k <= cs.len(),
        forall|i: int| 0 <= i < k ==> (#[trigger] cs[i]).id@ != id,
        k < cs.len() ==> cs[k].id@ == id,
    ensures
        k == cs.len() ==> name_of(cs, id) is None,
        k < cs.len() ==> name_of(cs, id) == Some(cs[k].name@),
    decreases cs.len(),
{
    if cs.len() > 0 && k > 0 {
        assert(cs[0].id@ != id);
        let rest = cs.skip(1);
        assert forall|i: int| 0 <= i < k - 1 implies (#[trigger] rest[i]).id@ != id by {
            assert(rest[i] == cs[i + 1]);
        }
        first_name(rest, id, k - 1);
    }
}

/// A number in plain characters is cut at the limit.
pub proof fn plain_texts_are_cut_at_the_limit(s: Seq<char>, limit: int)
    requires
        limit >= 0,
        forall|i: int| 0 <= i < s.len() ==> (#[trigger] s[i]) as u32 <= 0x7f,
    ensures
        s.len() <= limit ==> within(s, limit) == s,
        s.len() > limit ==> within(s, limit) == s.take(limit),
    decreases s.len(),
{
    if s.len() > 0 {
        assert(width(s[0]) == 1);
        if limit > 0 {
            let rest = s.skip(1);
            assert forall|i: int| 0 <= i < rest.len() implies (#[trigger] rest[i]) as u32
                <= 0x7f by {
                assert(rest[i] == s[i + 1]);
            }
            plain_texts_are_cut_at_the_limit(rest, limit - 1);
            if s.len() <= limit {
                assert(within(s, limit) =~= s);
            } else {
                assert(within(s, limit) =~= s.take(limit));
            }
        } else {
            assert(within(s, limit) =~= s.take(limit));
        }
    }
}

/// What the lines of containers and guest processes say.
pub proof fn guest_lines_say_what_was_found(
    c: Container,
    cs: Option<Vec<Container>>,
    p: GuestProcess,
)
    ensures
        container_text(c) == right(known_micro(c.cpu_percent), 7) + "%  "@ + c.name@ + "  RAM "@
            + c.memory@ + "\n          image="@ + c.image@ + "  compose="@ + (match c.project {
            Some(t) => t@,
            None => "—"@,
        }) + "/"@ + (match c.service {
            Some(t) => t@,
            None => "—"@,
        }) + "\n"@,
        exists|load: Seq<char>| #[trigger]
            writes(load, p.cpu_percent as int, 100_000, 1) && process_text(cs, p) == right(
                digits(p.pid as nat),
                8,
            ) + " "@ + right(load, 7) + "%  "@ + left(p.name@, 24) + " "@ + owner_of(cs, p) + (
            if p.probe {
                " [probe]"@
            } else {
                ""@
            }) + "\n"@,
{
    decimals_write_the_nearest(p.cpu_percent as nat, 100_000, 1);
}

/// The report of an inspection: its heading and evidence, all containers, the
/// first twenty-five guest processes, and everything that was unavailable.
pub proof fn inspections_say_what_was_found(
    v: Inspection,
    cs: Seq<Container>,
    c: Container,
    ps: Seq<GuestProcess>,
    p: GuestProcess,
    es: Seq<String>,
    e: String,
)
    ensures
        containers_text(seq![]) == Seq::<char>::empty(),
        containers_text(cs.push(c)) == containers_text(cs) + container_text(c),
        processes_text(v.containers, seq![]) == Seq::<char>::empty(),
        processes_text(v.containers, ps.push(p)) == processes_text(v.containers, ps)
            + process_text(v.containers, p),
        errors_text(seq![]) == Seq::<char>::empty(),
        errors_text(es.push(e)) == errors_text(es) + "\nUnavailable: "@ + e@ + "\n"@,
        v.heading() == "Host PID "@ + signed_digits(v.pid as int) + " → "@ + (match v.identity {
            Some(i) => i.tool@ + " / "@ + (match i.profile {
                Some(t) => t@,
                None => "default"@,
            }) + "\n"@ + "Evidence: "@ + i.evidence@ + "\n"@,
            None => "unknown VM"@ + "\n"@,
        })
            + "CPU percentages below are guest CPU load (100% = one logical CPU), not measured container watts.\n"@,
        v.text() == v.heading() + (match v.containers {
            Some(list) => "\nContainers (Docker interval; separate from guest process interval):\n"@
                + containers_text(list@) + (if list@.len() == 0 {
                "No running containers reported; VM/host services may still consume CPU.\n"@
            } else {
                Seq::<char>::empty()
            }),
            None => Seq::<char>::empty(),
        }) + (match v.guest {
            Some(g) => guest_heading(g) + processes_text(
                v.containers,
                if g.processes@.len() <= 25 {
                    g.processes@
                } else {
                    g.processes@.take(25)
                },
            ),
            None => Seq::<char>::empty(),
        }) + errors_text(v.errors@),
{
    assert(cs.push(c).drop_last() =~= cs);
    assert(ps.push(p).drop_last() =~= ps);
    assert(es.push(e).drop_last() =~= es);
    assert(v.heading() =~= "Host PID "@ + signed_digits(v.pid as int) + " → "@ + (match v.identity {
        Some(i) => i.tool@ + " / "@ + (match i.profile {
            Some(t) => t@,
            None => "default"@,
        }) + "\n"@ + "Evidence: "@ + i.evidence@ + "\n"@,
        None => "unknown VM"@ + "\n"@,
    })
        + "CPU percentages below are guest CPU load (100% = one logical CPU), not measured container watts.\n"@);
    let middle = match v.containers {
        Some(list) => "\nContainers (Docker interval; separate from guest process interval):\n"@
            + containers_text(list@) + (if list@.len() == 0 {
            "No running containers reported; VM/host services may still consume CPU.\n"@
        } else {
            Seq::<char>::empty()
        }),
        None => Seq::<char>::empty(),
    };
    assert(v.upper_part() =~= v.heading() + middle);
    let lower = match v.guest {
        Some(g) => guest_heading(g) + processes_text(
            v.containers,
            if g.processes@.len() <= 25 {
                g.processes@
            } else {
                g.processes@.take(25)
            },
        ),
        None => Seq::<char>::empty(),
    };
    assert(v.main_part() =~= v.heading() + middle + lower);
}

/// What is not that of the process that was asked about is thrown away: where
/// its start was expected and is another, or changes while it is looked into.
pub proof fn a_replaced_process_gives_nothing(expected: Option<u64>, p: Probe)
    ensures
        replaced(expected, p.first_start) <==> (expected is Some && (p.first_start is None
            || p.first_start->0 != expected->0)),
        conclusive(expected, p) <==> ((expected is None || p.first_start == expected) && (
        p.first_start is None || p.last_start == p.first_start) && p.identity is Ok),
        expected is Some && p.first_start != expected ==> probe_errors(expected, p)
            == seq!["Process exited or PID was reused; select the current VM again"@],
        (expected is None || p.first_start == expected) && p.first_start is Some && p.last_start
            != p.first_start ==> probe_errors(expected, p).len() > 0 && probe_errors(
            expected,
            p,
        ).last() == "VM process changed while probing; results discarded"@,
        conclusive(expected, p) ==> probe_errors(expected, p).len() == (if p.containers is Err {
            1int
        } else {
            0
        }) + (if p.guest is Err {
            1int
        } else {
            0
        }),
        conclusive(expected, p) && p.containers is Err ==> probe_errors(expected, p)[0]
            == "Containers: "@ + (p.containers->Err_0)@,
        conclusive(expected, p) && p.guest is Err ==> probe_errors(expected, p).last()
            == "Guest: "@ + (p.guest->Err_0)@,
        (expected is None || p.first_start == expected) && p.identity is Err ==> probe_errors(
            expected,
            p,
        )[0] == (p.identity->Err_0)@,
{
}

/// Docker is asked through the machine's own socket, once and in full.
pub proof fn docker_is_asked_at_the_socket(socket: Seq<char>, query: DockerQuery)
    ensures
        docker_words(socket, query).len() >= 6,
        docker_words(socket, query)[0] == "--host"@,
        docker_words(socket, query)[1] == "unix://"@ + socket,
        query is Metadata ==> docker_words(socket, query).subrange(2, 5) == seq![
            "ps"@,
            "--no-trunc"@,
            "--format"@,
        ],
        query is Statistics ==> docker_words(socket, query).skip(2) == seq![
            "stats"@,
            "--no-stream"@,
            "--no-trunc"@,
            "--format"@,
            "{{json .}}"@,
        ],
{
    let w = docker_words(socket, query);
    if query is Metadata {
        assert(w.subrange(2, 5) =~= seq!["ps"@, "--no-trunc"@, "--format"@]);
    } else {
        assert(w.skip(2) =~= seq![
            "stats"@,
            "--no-stream"@,
            "--no-trunc"@,
            "--format"@,
            "{{json .}}"@,
        ]);
    }
}

/// A machine is identified by one candidate, and by no fewer and no more.
pub proof fn one_candidate_is_the_machine(files: Seq<char>)
    ensures
        match candidates(lines_of(files)) {
            Some(found) => {
                &&& found.len() == 1 ==> identity_in(files) == Some(found[0])
                &&& found.len() != 1 ==> identity_in(files) is None
            },
            None => identity_in(files) is None,
        },
{
}

/// What the heading over guest processes says: the seconds of the interval with
/// two decimals, how many were measured, and how busy the guest was.
pub proof fn guest_headings_say_how_much_was_measured(g: Guest)
    ensures
        exists|time: Seq<char>| #[trigger]
            writes(time, g.interval_s as int, 10_000, 2) && guest_heading(g)
                == "\nLinux processes over "@ + time + "s; "@ + digits(g.measured_processes as nat)
                + "/"@ + digits(g.observed_processes as nat) + " measured; "@ + digits(
                g.unreadable_cgroups as nat,
            ) + " unreadable cgroups; system busy "@ + known_micro(g.busy_percent) + "% of "@
                + digits(
                match g.logical_cpus {
                    Some(n) => n as nat,
                    None => 0,
                },
            ) + " vCPUs:\n"@,
{
    decimals_write_the_nearest(g.interval_s as nat, 10_000, 2);
}

} // verus!
