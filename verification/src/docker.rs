//! Container rows from the output of the container runtime.
//!
//! Statistics and metadata arrive as one JSON object per line. A row is joined
//! to its metadata by the full container id; whatever a line leaves out stays
//! unknown.

use crate::order::{self, key_of, ranking, Key};
use crate::percent::{percent, percent_of};
use crate::text::{self, lines_of, opt_text, trimmed};
use vstd::prelude::*;
use vstd::string::*;

verus! {

/// A JSON document, held as the JSON crate holds it.
#[verifier::external_type_specification]
#[verifier::external_body]
pub struct ExValue(serde_json::Value);

/// The members of a JSON object whose values are strings; empty for a document
/// that is no object.
pub uninterp spec fn string_members(v: serde_json::Value) -> Map<Seq<char>, Seq<char>>;

/// What `serde_json::from_str` reads in a text: the string members of the
/// document, or the message of the error.
pub uninterp spec fn json_reading(text: Seq<char>) -> Result<
    Map<Seq<char>, Seq<char>>,
    Seq<char>,
>;

/// Calls `serde_json::from_str` for any JSON document. The result depends on
/// the text alone: the document that it holds, or the message that says why it
/// holds none.
#[verifier::external_body]
fn parse_json(text: &str) -> (r: Result<serde_json::Value, String>)
    ensures
        match r {
            Ok(v) => json_reading(text@) == Ok::<Map<Seq<char>, Seq<char>>, Seq<char>>(
                string_members(v),
            ),
            Err(e) => json_reading(text@) == Err::<Map<Seq<char>, Seq<char>>, Seq<char>>(e@),
        },
{
    match serde_json::from_str::<serde_json::Value>(text) {
        Ok(v) => Ok(v),
        Err(e) => Err(e.to_string()),
    }
}

/// Indexes a `serde_json::Value` by a member name and takes the string that
/// stands there: the string if the document is an object with such a member
/// and the member is a string, nothing otherwise.
#[verifier::external_body]
fn member(v: &serde_json::Value, name: &str) -> (r: Option<String>)
    ensures
        match r {
            Some(s) => string_members(*v).contains_key(name@) && string_members(*v)[name@] == s@,
            None => !string_members(*v).contains_key(name@),
        },
{
    v[name].as_str().map(|s| s.to_string())
}

/// One container.
#[derive(Debug, Clone, PartialEq, Eq)]
pub struct Container {
    pub id: String,
    pub name: String,
    pub image: String,
    pub project: Option<String>,
    pub service: Option<String>,
    pub cpu_percent: Option<u64>,
    pub memory: String,
    pub net_io: String,
    pub block_io: String,
}

/// The texts of a `Container`.
pub struct ContainerView {
    pub id: Seq<char>,
    pub name: Seq<char>,
    pub image: Seq<char>,
    pub project: Option<Seq<char>>,
    pub service: Option<Seq<char>>,
    pub cpu_percent: Option<u64>,
    pub memory: Seq<char>,
    pub net_io: Seq<char>,
    pub block_io: Seq<char>,
}

impl View for Container {
    type V = ContainerView;

    open spec fn view(&self) -> ContainerView {
        ContainerView {
            id: self.id@,
            name: self.name@,
            image: self.image@,
            project: opt_text(self.project),
            service: opt_text(self.service),
            cpu_percent: self.cpu_percent,
            memory: self.memory@,
            net_io: self.net_io@,
            block_io: self.block_io@,
        }
    }
}

/// The string members of one JSON object.
pub type Members = Map<Seq<char>, Seq<char>>;

/// The string member of the given name.
pub open spec fn member_of(m: Members, name: Seq<char>) -> Option<Seq<char>> {
    if m.contains_key(name) {
        Some(m[name])
    } else {
        None
    }
}

/// The lines of a text that hold more than white space.
pub open spec fn filled_lines(s: Seq<char>) -> Seq<Seq<char>> {
    lines_of(s).filter(|l: Seq<char>| trimmed(l).len() != 0)
}

/// The objects that lines hold, or the first error among them.
pub open spec fn objects(lines: Seq<Seq<char>>) -> Result<Seq<Members>, Seq<char>>
    decreases lines.len(),
{
    if lines.len() == 0 {
        Ok(Seq::empty())
    } else {
        match (objects(lines.drop_last()), json_reading(lines.last())) {
            (Err(e), _) => Err(e),
            (Ok(_), Err(e)) => Err(e),
            (Ok(v), Ok(m)) => Ok(v.push(m)),
        }
    }
}

/// One line of statistics: what the runtime reported of a container.
#[derive(Debug, Clone, PartialEq, Eq, Default)]
pub struct StatRow {
    pub id: Option<String>,
    pub name: Option<String>,
    pub cpu: Option<String>,
    pub memory: Option<String>,
    pub net_io: Option<String>,
    pub block_io: Option<String>,
}

/// The texts of a `StatRow`.
pub struct StatView {
    pub id: Option<Seq<char>>,
    pub name: Option<Seq<char>>,
    pub cpu: Option<Seq<char>>,
    pub memory: Option<Seq<char>>,
    pub net_io: Option<Seq<char>>,
    pub block_io: Option<Seq<char>>,
}

impl View for StatRow {
    type V = StatView;

    open spec fn view(&self) -> StatView {
        StatView {
            id: opt_text(self.id),
            name: opt_text(self.name),
            cpu: opt_text(self.cpu),
            memory: opt_text(self.memory),
            net_io: opt_text(self.net_io),
            block_io: opt_text(self.block_io),
        }
    }
}

/// One line of metadata.
#[derive(Debug, Clone, PartialEq, Eq, Default)]
pub struct MetaRow {
    pub id: Option<String>,
    pub image: Option<String>,
    pub project: Option<String>,
    pub service: Option<String>,
}

/// The texts of a `MetaRow`.
pub struct MetaView {
    pub id: Option<Seq<char>>,
    pub image: Option<Seq<char>>,
    pub project: Option<Seq<char>>,
    pub service: Option<Seq<char>>,
}

impl View for MetaRow {
    type V = MetaView;

    open spec fn view(&self) -> MetaView {
        MetaView {
            id: opt_text(self.id),
            image: opt_text(self.image),
            project: opt_text(self.project),
            service: opt_text(self.service),
        }
    }
}

/// The statistics that an object holds.
pub open spec fn stat_in(m: Members) -> StatView {
    StatView {
        id: member_of(m, "ID"@),
        name: member_of(m, "Name"@),
        cpu: member_of(m, "CPUPerc"@),
        memory: member_of(m, "MemUsage"@),
        net_io: member_of(m, "NetIO"@),
        block_io: member_of(m, "BlockIO"@),
    }
}

/// The metadata that an object holds.
pub open spec fn meta_in(m: Members) -> MetaView {
    MetaView {
        id: member_of(m, "id"@),
        image: member_of(m, "image"@),
        project: member_of(m, "project"@),
        service: member_of(m, "service"@),
    }
}

/// The first metadata row with the given id.
pub open spec fn metadata_of(meta: Seq<MetaView>, id: Seq<char>) -> Option<MetaView>
    decreases meta.len(),
{
    if meta.len() == 0 {
        None
    } else if meta[0].id == Some(id) {
        Some(meta[0])
    } else {
        metadata_of(meta.skip(1), id)
    }
}

/// A label, if it is there and not empty.
pub open spec fn filled_label(s: Option<Seq<char>>) -> Option<Seq<char>> {
    match s {
        Some(t) => if t.len() == 0 {
            None
        } else {
            Some(t)
        },
        None => None,
    }
}

/// A text, or the word for one that is missing.
pub open spec fn or_unknown(s: Option<Seq<char>>) -> Seq<char> {
    match s {
        Some(t) => t,
        None => "unknown"@,
    }
}

/// The container that a row of statistics describes, joined to its metadata.
pub open spec fn container_of(row: StatView, meta: Seq<MetaView>) -> ContainerView {
    let m = match metadata_of(meta, row.id->0) {
        Some(m) => m,
        None => MetaView { id: None, image: None, project: None, service: None },
    };
    ContainerView {
        id: row.id->0,
        name: or_unknown(row.name),
        image: or_unknown(filled_label(m.image)),
        project: filled_label(m.project),
        service: filled_label(m.service),
        cpu_percent: percent_of(or_unknown(row.cpu)),
        memory: or_unknown(row.memory),
        net_io: or_unknown(row.net_io),
        block_io: or_unknown(row.block_io),
    }
}

/// Every row carries a container id.
pub open spec fn all_named(rows: Seq<StatView>) -> bool {
    forall|i: int| 0 <= i < rows.len() ==> (#[trigger] rows[i]).id is Some
}

/// The keys by which containers are ranked: CPU use, unknown use last.
pub open spec fn cpu_keys(cs: Seq<ContainerView>) -> Seq<Key> {
    cs.map_values(|c: ContainerView| (key_of(c.cpu_percent), 0u128))
}

/// The containers from the busiest to the least busy.
pub open spec fn ranked(cs: Seq<ContainerView>) -> Seq<ContainerView> {
    ranking(cpu_keys(cs)).map_values(|i: usize| cs[i as int])
}

/// The containers that rows of statistics describe, busiest first.
pub open spec fn joined(rows: Seq<StatView>, meta: Seq<MetaView>) -> Result<
    Seq<ContainerView>,
    Seq<char>,
> {
    if all_named(rows) {
        Ok(ranked(rows.map_values(|r: StatView| container_of(r, meta))))
    } else {
        Err("Docker stats missing ID"@)
    }
}

/// The containers that the two outputs of the runtime describe.
pub open spec fn containers_in(stats: Seq<char>, metadata: Seq<char>) -> Result<
    Seq<ContainerView>,
    Seq<char>,
> {
    match objects(filled_lines(metadata)) {
        Err(e) => Err(e),
        Ok(meta) => match objects(filled_lines(stats)) {
            Err(e) => Err(e),
            Ok(rows) => joined(
                rows.map_values(|m: Members| stat_in(m)),
                meta.map_values(|m: Members| meta_in(m)),
            ),
        },
    }
}

/// The views of rows of statistics.
pub open spec fn stat_views(v: Seq<StatRow>) -> Seq<StatView> {
    v.map_values(|r: StatRow| r@)
}

/// The views of rows of metadata.
pub open spec fn meta_views(v: Seq<MetaRow>) -> Seq<MetaView> {
    v.map_values(|r: MetaRow| r@)
}

/// The views of a run of containers.
pub open spec fn container_views(v: Seq<Container>) -> Seq<ContainerView> {
    v.map_values(|c: Container| c@)
}

/// The members of a run of documents.
pub open spec fn members_of(v: Seq<serde_json::Value>) -> Seq<Members> {
    v.map_values(|x: serde_json::Value| string_members(x))
}

fn filled(s: &str) -> (r: Vec<Vec<char>>)
    ensures
        text::views(r@) == filled_lines(s@),
{
    let all = text::lines(&text::chars(s));
    let ghost whole = text::views(all@);
    let ghost keep = |l: Seq<char>| trimmed(l).len() != 0;
    let mut r: Vec<Vec<char>> = Vec::new();
    let mut i: usize = 0;
    proof {
        reveal(Seq::filter);
    }
    while i < all.len()
        invariant
            i <= all@.len(),
            whole == text::views(all@),
            keep == (|l: Seq<char>| trimmed(l).len() != 0),
            text::views(r@) == whole.take(i as int).filter(keep),
        decreases all.len() - i,
    {
        proof {
            reveal(Seq::filter);
            assert(whole.take(i + 1).drop_last() =~= whole.take(i as int));
            assert(whole[i as int] == all@[i as int]@);
        }
        if text::trim(&all[i]).len() != 0 {
            let l = text::piece(&all[i], 0, all[i].len());
            let ghost before = r@;
            let ghost lv = l@;
            proof {
                assert(lv =~= all@[i as int]@);
            }
            r.push(l);
            proof {
                assert(text::views(r@) =~= text::views(before).push(lv));
            }
        }
        i += 1;
    }
    proof {
        assert(whole.take(all@.len() as int) =~= whole);
    }
    r
}

proof fn error_stays(lines: Seq<Seq<char>>, n: int)
    requires
        0 <= n <= lines.len(),
        objects(lines.take(n)) is Err,
    ensures
        objects(lines) == objects(lines.take(n)),
    decreases lines.len() - n,
{
    if n < lines.len() {
        assert(lines.take(n + 1).drop_last() =~= lines.take(n));
        error_stays(lines, n + 1);
    } else {
        assert(lines.take(n) =~= lines);
    }
}

/// The documents that the filled lines of a text hold, or the message of the
/// first error.
pub fn lines(text: &str) -> (r: Result<Vec<serde_json::Value>, String>)
    ensures
        match r {
            Ok(v) => objects(filled_lines(text@)) == Ok::<Seq<Members>, Seq<char>>(members_of(v@)),
            Err(e) => objects(filled_lines(text@)) == Err::<Seq<Members>, Seq<char>>(e@),
        },
{
    let all = filled(text);
    let ghost whole = text::views(all@);
    let mut r: Vec<serde_json::Value> = Vec::new();
    let mut i: usize = 0;
    proof {
        assert(members_of(r@) =~= Seq::<Members>::empty());
    }
    while i < all.len()
        invariant
            i <= all@.len(),
            whole == text::views(all@),
            whole == filled_lines(text@),
            objects(whole.take(i as int)) == Ok::<Seq<Members>, Seq<char>>(members_of(r@)),
        decreases all.len() - i,
    {
        proof {
            assert(whole.take(i + 1).drop_last() =~= whole.take(i as int));
            assert(whole.take(i + 1).last() == all@[i as int]@);
        }
        match parse_json(text::text(&all[i]).as_str()) {
            Ok(v) => {
                let ghost before = r@;
                let ghost m = string_members(v);
                r.push(v);
                proof {
                    assert(members_of(r@) =~= members_of(before).push(m));
                }
            },
            Err(e) => {
                proof {
                    error_stays(whole, i + 1);
                }
                return Err(e);
            },
        }
        i += 1;
    }
    proof {
        assert(whole.take(whole.len() as int) =~= whole);
    }
    Ok(r)
}

/// The index of the first metadata row with the given id.
fn lookup(meta: &Vec<MetaRow>, id: &String) -> (r: Option<usize>)
    ensures
        match r {
            Some(i) => i < meta@.len() && metadata_of(meta_views(meta@), id@) == Some(
                meta@[i as int]@,
            ),
            None => metadata_of(meta_views(meta@), id@) is None,
        },
{
    let mut i: usize = 0;
    let ghost all = meta_views(meta@);
    proof {
        assert(all.skip(0) =~= all);
    }
    while i < meta.len()
        invariant
            i <= meta@.len(),
            all == meta_views(meta@),
            metadata_of(all.skip(i as int), id@) == metadata_of(all, id@),
        decreases meta.len() - i,
    {
        proof {
            assert(all.skip(i as int)[0] == meta@[i as int]@);
            assert(all.skip(i as int).skip(1) =~= all.skip(i + 1));
        }
        if let Some(s) = &meta[i].id {
            if *s == *id {
                return Some(i);
            }
        }
        i += 1;
    }
    None
}

fn or_word(s: &Option<String>) -> (r: String)
    ensures
        r@ == or_unknown(opt_text(*s)),
{
    match s {
        Some(t) => t.clone(),
        None => text::copy("unknown"),
    }
}

fn label(s: &Option<String>) -> (r: Option<String>)
    ensures
        opt_text(r) == filled_label(opt_text(*s)),
{
    match s {
        Some(t) => if t.as_str().is_empty() {
            None
        } else {
            Some(t.clone())
        },
        None => None,
    }
}

/// The container that one row with an id describes.
fn container(row: &StatRow, id: &String, meta: &Vec<MetaRow>) -> (r: Container)
    requires
        row.id == Some(*id),
    ensures
        r@ == container_of(row@, meta_views(meta@)),
{
    let (image, project, service) = match lookup(meta, id) {
        Some(i) => (label(&meta[i].image), label(&meta[i].project), label(&meta[i].service)),
        None => (None, None, None),
    };
    Container {
        id: id.clone(),
        name: or_word(&row.name),
        image: or_word(&image),
        project,
        service,
        cpu_percent: percent(or_word(&row.cpu).as_str()),
        memory: or_word(&row.memory),
        net_io: or_word(&row.net_io),
        block_io: or_word(&row.block_io),
    }
}

impl Container {
    /// A copy of the row.
    pub fn duplicate(&self) -> (r: Container)
        ensures
            r == *self,
    {
        Container {
            id: self.id.clone(),
            name: self.name.clone(),
            image: self.image.clone(),
            project: text::copy_opt(&self.project),
            service: text::copy_opt(&self.service),
            cpu_percent: self.cpu_percent,
            memory: self.memory.clone(),
            net_io: self.net_io.clone(),
            block_io: self.block_io.clone(),
        }
    }
}

/// The containers from the busiest to the least busy; equally busy ones keep
/// their order, unknown use comes last.
pub fn rank_containers(rows: &Vec<Container>) -> (r: Vec<Container>)
    ensures
        container_views(r@) == ranked(container_views(rows@)),
{
    let ghost all = container_views(rows@);
    let mut keys: Vec<Key> = Vec::new();
    let mut i: usize = 0;
    while i < rows.len()
        invariant
            i <= rows@.len(),
            all == container_views(rows@),
            keys@ == cpu_keys(all).take(i as int),
        decreases rows.len() - i,
    {
        keys.push((order::key(rows[i].cpu_percent), 0));
        proof {
            assert(cpu_keys(all)[i as int] == (key_of(rows@[i as int].cpu_percent), 0u128));
            assert(cpu_keys(all).take(i + 1) =~= cpu_keys(all).take(i as int).push(
                cpu_keys(all)[i as int],
            ));
        }
        i += 1;
    }
    proof {
        assert(cpu_keys(all).take(all.len() as int) =~= cpu_keys(all));
    }
    let places = order::rank(&keys);
    let mut r: Vec<Container> = Vec::new();
    let mut p: usize = 0;
    while p < places.len()
        invariant
            p <= places@.len(),
            all == container_views(rows@),
            places@ == ranking(cpu_keys(all)),
            forall|q: int| 0 <= q < places@.len() ==> (#[trigger] places@[q]) < rows@.len(),
            container_views(r@) == ranked(all).take(p as int),
        decreases places.len() - p,
    {
        let ghost before = r@;
        let c = rows[places[p]].duplicate();
        let ghost cv = c@;
        r.push(c);
        proof {
            assert(container_views(r@) =~= container_views(before).push(cv));
            assert(ranked(all)[p as int] == cv);
            assert(ranked(all).take(p + 1) =~= ranked(all).take(p as int).push(cv));
        }
        p += 1;
    }
    proof {
        assert(ranked(all).take(places@.len() as int) =~= ranked(all));
    }
    r
}

/// The containers that rows of statistics describe, joined to their metadata
/// and ranked; an error if a row has no id.
pub fn join_rows(rows: &Vec<StatRow>, meta: &Vec<MetaRow>) -> (r: Result<Vec<Container>, String>)
    ensures
        match r {
            Ok(v) => joined(stat_views(rows@), meta_views(meta@)) == Ok::<
                Seq<ContainerView>,
                Seq<char>,
            >(container_views(v@)),
            Err(e) => joined(stat_views(rows@), meta_views(meta@)) == Err::<
                Seq<ContainerView>,
                Seq<char>,
            >(e@),
        },
{
    let ghost all = stat_views(rows@);
    let ghost m = meta_views(meta@);
    let ghost wanted = all.map_values(|r: StatView| container_of(r, m));
    let mut found: Vec<Container> = Vec::new();
    let mut i: usize = 0;
    while i < rows.len()
        invariant
            i <= rows@.len(),
            all == stat_views(rows@),
            m == meta_views(meta@),
            wanted == all.map_values(|r: StatView| container_of(r, m)),
            forall|j: int| 0 <= j < i ==> (#[trigger] all[j]).id is Some,
            container_views(found@) == wanted.take(i as int),
        decreases rows.len() - i,
    {
        proof {
            assert(all[i as int] == rows@[i as int]@);
        }
        match &rows[i].id {
            Some(id) => {
                let c = container(&rows[i], id, meta);
                let ghost before = found@;
                let ghost cv = c@;
                found.push(c);
                proof {
                    assert(container_views(found@) =~= container_views(before).push(cv));
                    assert(wanted.take(i + 1) =~= wanted.take(i as int).push(wanted[i as int]));
                }
            },
            None => {
                proof {
                    assert(!all_named(all));
                }
                return Err(text::copy("Docker stats missing ID"));
            },
        }
        i += 1;
    }
    proof {
        assert(wanted.take(all.len() as int) =~= wanted);
        assert(all_named(all));
    }
    Ok(rank_containers(&found))
}

fn stat_rows(docs: &Vec<serde_json::Value>) -> (r: Vec<StatRow>)
    ensures
        stat_views(r@) == members_of(docs@).map_values(|m: Members| stat_in(m)),
{
    let mut r: Vec<StatRow> = Vec::new();
    let mut i: usize = 0;
    while i < docs.len()
        invariant
            i <= docs@.len(),
            r@.len() == i,
            forall|j: int|
                0 <= j < i ==> (#[trigger] r@[j])@ == stat_in(string_members(docs@[j])),
        decreases docs.len() - i,
    {
        let d = &docs[i];
        r.push(
            StatRow {
                id: member(d, "ID"),
                name: member(d, "Name"),
                cpu: member(d, "CPUPerc"),
                memory: member(d, "MemUsage"),
                net_io: member(d, "NetIO"),
                block_io: member(d, "BlockIO"),
            },
        );
        i += 1;
    }
    proof {
        assert(stat_views(r@) =~= members_of(docs@).map_values(|m: Members| stat_in(m)));
    }
    r
}

fn meta_rows(docs: &Vec<serde_json::Value>) -> (r: Vec<MetaRow>)
    ensures
        meta_views(r@) == members_of(docs@).map_values(|m: Members| meta_in(m)),
{
    let mut r: Vec<MetaRow> = Vec::new();
    let mut i: usize = 0;
    while i < docs.len()
        invariant
            i <= docs@.len(),
            r@.len() == i,
            forall|j: int|
                0 <= j < i ==> (#[trigger] r@[j])@ == meta_in(string_members(docs@[j])),
        decreases docs.len() - i,
    {
        let d = &docs[i];
        r.push(
            MetaRow {
                id: member(d, "id"),
                image: member(d, "image"),
                project: member(d, "project"),
                service: member(d, "service"),
            },
        );
        i += 1;
    }
    proof {
        assert(meta_views(r@) =~= members_of(docs@).map_values(|m: Members| meta_in(m)));
    }
    r
}

/// The containers that the statistics and metadata of the runtime describe.
pub fn parse_containers(stats: &str, metadata: &str) -> (r: Result<Vec<Container>, String>)
    ensures
        match r {
            Ok(v) => containers_in(stats@, metadata@) == Ok::<Seq<ContainerView>, Seq<char>>(
                container_views(v@),
            ),
            Err(e) => containers_in(stats@, metadata@) == Err::<Seq<ContainerView>, Seq<char>>(e@),
        },
{
    let meta = match lines(metadata) {
        Ok(v) => v,
        Err(e) => return Err(e),
    };
    let rows = match lines(stats) {
        Ok(v) => v,
        Err(e) => return Err(e),
    };
    join_rows(&stat_rows(&rows), &meta_rows(&meta))
}

/// No container is lost or made up: every row of statistics gives exactly one
/// container, and the busiest come first.
pub proof fn every_row_is_a_container(rows: Seq<StatView>, meta: Seq<MetaView>)
    requires
        all_named(rows),
        rows.len() <= usize::MAX,
    ensures
        joined(rows, meta) is Ok,
        joined(rows, meta)->Ok_0.len() == rows.len(),
        forall|i: int|
            0 <= i < rows.len() ==> joined(rows, meta)->Ok_0.contains(
                container_of(#[trigger] rows[i], meta),
            ),
        forall|p: int, q: int|
            0 <= p < q < rows.len() ==> key_of(
                (#[trigger] joined(rows, meta)->Ok_0[p]).cpu_percent,
            ) >= key_of((#[trigger] joined(rows, meta)->Ok_0[q]).cpu_percent),
{
    let all = rows.map_values(|r: StatView| container_of(r, meta));
    let keys = cpu_keys(all);
    let out = joined(rows, meta)->Ok_0;
    let order = ranking(keys);
    order::ranking_is_stable(keys);
    assert forall|i: int| 0 <= i < rows.len() implies out.contains(
        container_of(#[trigger] rows[i], meta),
    ) by {
        order::ranking_holds_every_row(keys, i as usize);
        let p = choose|p: int| 0 <= p < order.len() && order[p] == i as usize;
        assert(out[p] == all[i]);
    }
    assert forall|p: int, q: int| 0 <= p < q < rows.len() implies key_of(
        (#[trigger] out[p]).cpu_percent,
    ) >= key_of((#[trigger] out[q]).cpu_percent) by {
        assert(order::precedes(keys, order[p], order[q]));
    }
}

} // verus!
