//! The rows of the live view's tables.

use crate::analysis::{seat, seat_is_first, Consumer, ConsumerView};
use crate::docker::Container;
use crate::inspection::{GuestProcess, Inspection};
use crate::ledger::{consumer_keys, Ledger, LedgerView};
use crate::num::{self, digits, fixed, known, known_micro, signed_digits};
use crate::order::ranking;
use crate::report::energy_text;
use crate::text::{self, printable, texts};
use crate::types::ProcRow;
use crate::ui::{current, current_rows};
use vstd::prelude::*;
use vstd::string::*;
use vstd::view::View as _;

verus! {

/// How a row stands out.
#[derive(Debug, Clone, Copy, PartialEq, Eq)]
pub enum Tone {
    Host,
    Container,
    Guest,
    Hidden,
}

/// One row of a table.
#[derive(Debug, PartialEq, Eq)]
pub struct TableRow {
    pub cells: Vec<String>,
    pub tone: Tone,
}

/// `TableRow` with its cells as sequences.
pub ghost struct RowView {
    pub cells: Seq<Seq<char>>,
    pub tone: Tone,
}

impl vstd::view::View for TableRow {
    type V = RowView;

    open spec fn view(&self) -> RowView {
        RowView { cells: texts(self.cells@), tone: self.tone }
    }
}

/// The views of some rows.
pub open spec fn row_views(v: Seq<TableRow>) -> Seq<RowView> {
    v.map_values(|r: TableRow| r@)
}

/// Bytes in mebibytes with one decimal.
pub open spec fn mebibytes(n: u64) -> Seq<char> {
    fixed((n * 10) as nat, 1_048_576, 1)
}

pub(crate) fn mib(n: u64) -> (r: String)
    ensures
        r@ == mebibytes(n),
{
    num::render(n as u128 * 10, 1_048_576, 1)
}

/// The row of a group.
pub open spec fn total_row(c: ConsumerView) -> RowView {
    RowView {
        cells: seq![
            printable(c.name),
            energy_text(c),
            fixed(c.cpu_s as nat, 10_000_000_000_000_000, 1),
            fixed(c.wakeups as nat, 1_000_000_000_000_000, 0),
            fixed(c.disk_bytes as nat, 100_000_000_000_000_000_000, 1),
        ],
        tone: Tone::Host,
    }
}

fn show_total(c: &Consumer) -> (r: TableRow)
    ensures
        r@ == total_row(c@),
{
    let energy = if c.energy_samples > 0 {
        num::render(c.cpu_j, 36_000_000_000_000_000, 5)
    } else {
        text::copy("—")
    };
    let cells: Vec<String> = vec![
        text::clean(c.name.as_str()),
        energy,
        num::render(c.cpu_s, 10_000_000_000_000_000, 1),
        num::render(c.wakeups, 1_000_000_000_000_000, 0),
        num::render(c.disk_bytes, 100_000_000_000_000_000_000, 1),
    ];
    assert(texts(cells@) =~= total_row(c@).cells);
    TableRow { cells, tone: Tone::Host }
}

/// A process number without its sign.
pub open spec fn as_unsigned(pid: i32) -> u32 {
    if pid < 0 {
        (pid + 0x1_0000_0000) as u32
    } else {
        pid as u32
    }
}

/// The row of a process.
pub open spec fn process_row(p: ProcRow, recorder: u32) -> RowView {
    RowView {
        cells: seq![
            signed_digits(p.pid as int),
            printable(p.name@) + (if as_unsigned(p.pid) == recorder {
                " [recorder]"@
            } else {
                ""@
            }),
            known(
                match p.energy_mw {
                    Some(w) => Some(w as u128),
                    None => None,
                },
                100_000_000,
            ),
            known_micro(p.cpu_percent),
            known_micro(p.wakeups_per_s),
            match p.footprint_bytes {
                Some(b) => mebibytes(b),
                None => "—"@,
            },
        ],
        tone: Tone::Host,
    }
}

fn show_process(p: &ProcRow, recorder: u32) -> (r: TableRow)
    ensures
        r@ == process_row(*p, recorder),
{
    let own: u32 = if p.pid < 0 {
        (p.pid as i64 + 0x1_0000_0000) as u32
    } else {
        p.pid as u32
    };
    let mut name = text::clean(p.name.as_str());
    name.append(
        if own == recorder {
            " [recorder]"
        } else {
            ""
        },
    );
    let energy = match p.energy_mw {
        Some(w) => Some(w as u128),
        None => None,
    };
    let memory = match p.footprint_bytes {
        Some(b) => mib(b),
        None => text::copy("—"),
    };
    let cells: Vec<String> = vec![
        num::signed(p.pid as i64),
        name,
        num::number(energy, 100_000_000),
        num::number_micro(p.cpu_percent),
        num::number_micro(p.wakeups_per_s),
        memory,
    ];
    assert(texts(cells@) =~= process_row(*p, recorder).cells);
    TableRow { cells, tone: Tone::Host }
}

/// The row of a container under its virtual machine.
pub open spec fn container_row(c: Container) -> RowView {
    RowView {
        cells: seq![
            ""@,
            "  ↳ container "@ + printable(c.name@),
            "guest"@,
            known_micro(c.cpu_percent),
            ""@,
            printable(c.memory@),
        ],
        tone: Tone::Container,
    }
}

fn show_container(c: &Container) -> (r: TableRow)
    ensures
        r@ == container_row(*c),
{
    let mut name = text::copy("  ↳ container ");
    name.append(text::clean(c.name.as_str()).as_str());
    let cells: Vec<String> = vec![
        text::copy(""),
        name,
        text::copy("guest"),
        num::number_micro(c.cpu_percent),
        text::copy(""),
        text::clean(c.memory.as_str()),
    ];
    assert(texts(cells@) =~= container_row(*c).cells);
    TableRow { cells, tone: Tone::Container }
}

/// The rows of all containers.
pub open spec fn container_rows(cs: Seq<Container>) -> Seq<RowView> {
    cs.map_values(|c: Container| container_row(c))
}

/// A guest process that uses at least one percent of a CPU.
pub open spec fn active(p: GuestProcess) -> bool {
    p.cpu_percent >= 1_000_000
}

/// The row of a guest process.
pub open spec fn guest_row(p: GuestProcess) -> RowView {
    RowView {
        cells: seq![
            ""@,
            "    ↳ "@ + printable(p.name@),
            "Linux"@,
            fixed(p.cpu_percent as nat, 100_000, 1),
            ""@,
            mebibytes(p.rss_bytes),
        ],
        tone: Tone::Guest,
    }
}

fn show_guest(p: &GuestProcess) -> (r: TableRow)
    ensures
        r@ == guest_row(*p),
{
    let mut name = text::copy("    ↳ ");
    name.append(text::clean(p.name.as_str()).as_str());
    let cells: Vec<String> = vec![
        text::copy(""),
        name,
        text::copy("Linux"),
        num::render(p.cpu_percent as u128, 100_000, 1),
        text::copy(""),
        mib(p.rss_bytes),
    ];
    assert(texts(cells@) =~= guest_row(*p).cells);
    TableRow { cells, tone: Tone::Guest }
}

/// The guest processes that are active.
pub open spec fn active_of(ps: Seq<GuestProcess>) -> Seq<GuestProcess> {
    ps.filter(|p: GuestProcess| active(p))
}

/// The row that stands for the idle guest processes.
pub open spec fn hidden_row(n: int) -> RowView {
    RowView {
        cells: seq![
            ""@,
            "    ↳ "@ + digits(n as nat) + " idle Linux processes hidden (<1% CPU)"@,
            "Linux"@,
            ""@,
            ""@,
            ""@,
        ],
        tone: Tone::Hidden,
    }
}

fn show_hidden(n: usize) -> (r: TableRow)
    ensures
        r@ == hidden_row(n as int),
{
    let mut name = text::copy("    ↳ ");
    name.append(num::decimal(n as u128).as_str());
    name.append(" idle Linux processes hidden (<1% CPU)");
    let cells: Vec<String> = vec![
        text::copy(""),
        name,
        text::copy("Linux"),
        text::copy(""),
        text::copy(""),
        text::copy(""),
    ];
    assert(texts(cells@) =~= hidden_row(n as int).cells);
    TableRow { cells, tone: Tone::Hidden }
}

/// The rows of a guest: its active processes, and one row for all idle ones.
pub open spec fn guest_rows(ps: Seq<GuestProcess>) -> Seq<RowView> {
    let shown = active_of(ps).map_values(|p: GuestProcess| guest_row(p));
    let hidden = ps.len() - active_of(ps).len();
    if hidden > 0 {
        shown.push(hidden_row(hidden))
    } else {
        shown
    }
}

/// The rows under a process that runs an inspected virtual machine.
pub open spec fn machine_rows(v: Inspection) -> Seq<RowView> {
    (match v.containers {
        Some(cs) => container_rows(cs@),
        None => seq![],
    }) + (match v.guest {
        Some(g) => guest_rows(g.processes@),
        None => seq![],
    })
}

fn add_containers(body: &mut Vec<TableRow>, cs: &Vec<Container>)
    ensures
        row_views(final(body)@) == row_views(old(body)@) + container_rows(cs@),
{
    let mut i: usize = 0;
    assert(row_views(body@) + container_rows(cs@).take(0) =~= row_views(body@));
    while i < cs.len()
        invariant
            i <= cs@.len(),
            row_views(body@) == row_views(old(body)@) + container_rows(cs@).take(i as int),
        decreases cs.len() - i,
    {
        let ghost before = body@;
        let row = show_container(&cs[i]);
        body.push(row);
        assert(row_views(body@) =~= row_views(before).push(row@));
        assert(row_views(body@) =~= row_views(old(body)@) + container_rows(cs@).take(i + 1));
        i += 1;
    }
    assert(container_rows(cs@).take(i as int) =~= container_rows(cs@));
}

fn add_guest(body: &mut Vec<TableRow>, ps: &Vec<GuestProcess>)
    ensures
        row_views(final(body)@) == row_views(old(body)@) + guest_rows(ps@),
{
    let ghost row = |p: GuestProcess| guest_row(p);
    let mut hidden: usize = 0;
    let mut i: usize = 0;
    proof {
        reveal(Seq::filter);
        assert(ps@.take(0) =~= seq![]);
        assert(row_views(body@) + active_of(ps@.take(0)).map_values(row) =~= row_views(body@));
    }
    while i < ps.len()
        invariant
            i <= ps@.len(),
            row == (|p: GuestProcess| guest_row(p)),
            active_of(ps@.take(i as int)).len() <= i,
            hidden == i - active_of(ps@.take(i as int)).len(),
            row_views(body@) == row_views(old(body)@) + active_of(
                ps@.take(i as int),
            ).map_values(row),
        decreases ps.len() - i,
    {
        let ghost so_far = active_of(ps@.take(i as int));
        let ghost next = active_of(ps@.take(i + 1));
        proof {
            reveal(Seq::filter);
            assert(ps@.take(i + 1).drop_last() =~= ps@.take(i as int));
            assert(ps@.take(i + 1).last() == ps@[i as int]);
            assert(next == if active(ps@[i as int]) {
                so_far.push(ps@[i as int])
            } else {
                so_far
            });
        }
        if ps[i].cpu_percent >= 1_000_000 {
            let ghost before = body@;
            let r = show_guest(&ps[i]);
            body.push(r);
            proof {
                assert(row_views(body@) =~= row_views(before).push(r@));
                assert(next.map_values(row) =~= so_far.map_values(row).push(r@));
                assert(row_views(body@) =~= row_views(old(body)@) + next.map_values(row));
            }
        } else {
            hidden += 1;
        }
        i += 1;
    }
    assert(ps@.take(i as int) =~= ps@);
    if hidden > 0 {
        let ghost before = body@;
        let r = show_hidden(hidden);
        body.push(r);
        assert(row_views(body@) =~= row_views(before).push(r@));
    }
    assert(row_views(body@) =~= row_views(old(body)@) + guest_rows(ps@));
}

proof fn active_are_among(ps: Seq<GuestProcess>)
    ensures
        active_of(ps).len() <= ps.len(),
        forall|i: int|
            0 <= i < ps.len() && active(#[trigger] ps[i]) ==> active_of(ps).contains(ps[i]),
    decreases ps.len(),
{
    reveal(Seq::filter);
    if ps.len() > 0 {
        let less = ps.drop_last();
        active_are_among(less);
        assert forall|i: int| 0 <= i < ps.len() && active(#[trigger] ps[i]) implies active_of(
            ps,
        ).contains(ps[i]) by {
            if i < less.len() {
                assert(less[i] == ps[i]);
                let k = choose|k: int| 0 <= k < active_of(less).len() && active_of(less)[k] == ps[i];
                assert(active_of(ps)[k] == ps[i]);
            } else {
                assert(active_of(ps)[active_of(ps).len() - 1] == ps[i]);
            }
        }
    }
}

/// Every guest process is shown or counted: one row for each active process,
/// and one row with the number of all others where there are any.
pub proof fn guest_processes_are_shown_or_counted(ps: Seq<GuestProcess>)
    ensures
        active_of(ps).len() <= ps.len(),
        guest_rows(ps).len() == active_of(ps).len() + (if active_of(ps).len() < ps.len() {
            1int
        } else {
            0int
        }),
        forall|i: int|
            0 <= i < ps.len() && active(#[trigger] ps[i]) ==> guest_rows(ps).contains(
                guest_row(ps[i]),
            ),
        active_of(ps).len() < ps.len() ==> guest_rows(ps).last() == hidden_row(
            ps.len() - active_of(ps).len(),
        ),
{
    active_are_among(ps);
    let rows = guest_rows(ps);
    assert forall|i: int| 0 <= i < ps.len() && active(#[trigger] ps[i]) implies rows.contains(
        guest_row(ps[i]),
    ) by {
        let k = choose|k: int| 0 <= k < active_of(ps).len() && active_of(ps)[k] == ps[i];
        assert(rows[k] == guest_row(ps[i]));
    }
}

/// The row of a process, with the rows of its virtual machine under it.
pub open spec fn host_rows(p: ProcRow, l: LedgerView) -> Seq<RowView> {
    let i = seat(l.vms, p.pid);
    seq![process_row(p, l.recorder_pid)] + if i < l.vms.len() {
        machine_rows(l.vms[i])
    } else {
        seq![]
    }
}

/// The rows of some processes.
pub open spec fn now_rows(ps: Seq<ProcRow>, l: LedgerView) -> Seq<RowView>
    decreases ps.len(),
{
    if ps.len() == 0 {
        seq![]
    } else {
        now_rows(ps.drop_last(), l) + host_rows(ps.last(), l)
    }
}

/// Finds the inspection of a process.
pub fn inspection_of(ledger: &Ledger, pid: i32) -> (r: Option<&Inspection>)
    ensures
        match r {
            Some(v) => seat(ledger@.vms, pid) < ledger@.vms.len() && *v == ledger@.vms[seat(
                ledger@.vms,
                pid,
            )],
            None => seat(ledger@.vms, pid) == ledger@.vms.len(),
        },
{
    let mut i: usize = 0;
    proof {
        seat_is_first(ledger@.vms, pid);
    }
    while i < ledger.vms.len()
        invariant
            i <= ledger.vms@.len(),
            forall|k: int| 0 <= k < i ==> (#[trigger] ledger.vms@[k]).pid != pid,
            0 <= seat(ledger@.vms, pid) <= ledger@.vms.len(),
            seat(ledger@.vms, pid) < ledger@.vms.len() ==> ledger@.vms[seat(
                ledger@.vms,
                pid,
            )].pid == pid,
            forall|k: int|
                0 <= k < seat(ledger@.vms, pid) ==> (#[trigger] ledger@.vms[k]).pid != pid,
        decreases ledger.vms.len() - i,
    {
        if ledger.vms[i].pid == pid {
            assert(seat(ledger@.vms, pid) == i) by {
                if seat(ledger@.vms, pid) > i {
                    assert(ledger@.vms[i as int].pid != pid);
                }
                if seat(ledger@.vms, pid) < i {
                    assert(ledger.vms@[seat(ledger@.vms, pid)].pid != pid);
                }
            }
            return Some(&ledger.vms[i]);
        }
        i += 1;
    }
    assert(seat(ledger@.vms, pid) == ledger@.vms.len()) by {
        if seat(ledger@.vms, pid) < ledger@.vms.len() {
            assert(ledger.vms@[seat(ledger@.vms, pid)].pid != pid);
        }
    }
    None
}

fn add_host(body: &mut Vec<TableRow>, p: &ProcRow, ledger: &Ledger)
    ensures
        row_views(final(body)@) == row_views(old(body)@) + host_rows(*p, ledger@),
{
    let ghost start = row_views(body@);
    let ghost before = body@;
    let row = show_process(p, ledger.recorder_pid);
    body.push(row);
    let ghost first = row_views(body@);
    assert(first =~= start + seq![row@]);
    if let Some(v) = inspection_of(ledger, p.pid) {
        if let Some(cs) = &v.containers {
            add_containers(body, cs);
        }
        let ghost second = row_views(body@);
        let ghost boxes = match &v.containers {
            Some(cs) => container_rows(cs@),
            None => seq![],
        };
        assert(second =~= first + boxes);
        if let Some(g) = &v.guest {
            add_guest(body, &g.processes);
        }
        proof {
            let inner = match &v.guest {
                Some(g) => guest_rows(g.processes@),
                None => seq![],
            };
            assert(row_views(body@) =~= second + inner);
            assert(row_views(body@) =~= start + (seq![row@] + (boxes + inner)));
        }
    } else {
        assert(first =~= start + (seq![row@] + Seq::<RowView>::empty()));
    }
}

pub(crate) fn now_body(ledger: &Ledger) -> (r: Vec<TableRow>)
    ensures
        row_views(r@) == now_rows(current_rows(ledger@), ledger@),
{
    let rows = current(ledger);
    let ghost all = current_rows(ledger@);
    let mut body: Vec<TableRow> = Vec::new();
    let mut i: usize = 0;
    proof {
        assert(all.take(0) =~= seq![]);
        assert(row_views(body@) =~= seq![]);
    }
    while i < rows.len()
        invariant
            i <= rows@.len(),
            rows@.len() == all.len(),
            forall|k: int| 0 <= k < rows@.len() ==> *(#[trigger] rows@[k]) == all[k],
            row_views(body@) == now_rows(all.take(i as int), ledger@),
        decreases rows.len() - i,
    {
        proof {
            assert(all.take(i + 1).drop_last() =~= all.take(i as int));
            assert(all.take(i + 1).last() == *rows@[i as int]);
        }
        add_host(&mut body, rows[i], ledger);
        i += 1;
    }
    assert(all.take(i as int) =~= all);
    body
}

/// The rows of all groups, the greatest first.
pub open spec fn total_rows(l: LedgerView) -> Seq<RowView> {
    Seq::new(
        l.groups.len(),
        |i: int| total_row(l.groups[ranking(consumer_keys(l.groups))[i] as int]),
    )
}

pub(crate) fn total_body(ledger: &Ledger) -> (r: Vec<TableRow>)
    ensures
        row_views(r@) == total_rows(ledger@),
{
    let rows = ledger.ranked();
    let mut body: Vec<TableRow> = Vec::new();
    let mut i: usize = 0;
    while i < rows.len()
        invariant
            i <= rows@.len(),
            ledger.is_ranked(rows@),
            body@.len() == i,
            forall|k: int| 0 <= k < i ==> (#[trigger] body@[k])@ == total_rows(ledger@)[k],
        decreases rows.len() - i,
    {
        body.push(show_total(rows[i]));
        i += 1;
    }
    assert(row_views(body@) =~= total_rows(ledger@));
    body
}

} // verus!
