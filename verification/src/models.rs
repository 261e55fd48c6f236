//! The models of the types, field by field.

use crate::analysis::Consumer;
use crate::dashboard::{Curves, Dashboard, Grid};
use crate::docker::{Container, MetaRow, StatRow};
use crate::ledger::Ledger;
use crate::screen::TableRow;
use crate::types::ProcRow;
use crate::ui::View;
use crate::vm::Identity;
use vstd::prelude::*;
use vstd::view::View as _;

verus! {

/// The model of a ledger is what its fields hold.
pub proof fn a_ledger_is_what_it_holds(l: Ledger)
    ensures
        l@.elapsed == l.elapsed,
        l@.battery_j == l.battery_j,
        l@.battery_seconds == l.battery_seconds,
        l@.gaps == l.gaps,
        l@.peak_w == l.peak_w,
        l@.peak_at == l.peak_at,
        l@.peak_consumers == l.peak_consumers@,
        l@.groups.len() == l.groups@.len(),
        forall|k: int| 0 <= k < l.groups@.len() ==> #[trigger] l@.groups[k] == l.groups@[k]@,
        l@.history == l.history@,
        l@.system_history == l.system_history@,
        l@.system_energy == l.system_energy,
        l@.comparisons == l.comparisons@,
        l@.latest == l.latest,
        l@.assertions == l.assertions@,
        l@.notices == l.notices@,
        l@.sampler_ms == l.sampler_ms,
        l@.measured_procs == l.measured_procs,
        l@.total_procs == l.total_procs,
        l@.recorder_pid == l.recorder_pid,
        l@.samples == l.samples,
        l@.ended == l.ended,
        l@.vms == l.vms@,
{
}

/// The model of a group is what its fields hold.
pub proof fn a_group_is_what_it_holds(c: Consumer)
    ensures
        c@.name == c.name@,
        c@.cpu_j == c.cpu_j,
        c@.cpu_s == c.cpu_s,
        c@.wakeups == c.wakeups,
        c@.disk_bytes == c.disk_bytes,
        c@.samples == c.samples,
        c@.energy_samples == c.energy_samples,
{
}

/// The model of a container is what its fields hold.
pub proof fn a_container_is_what_it_holds(c: Container)
    ensures
        c@.id == c.id@,
        c@.name == c.name@,
        c@.image == c.image@,
        c@.project is Some <==> c.project is Some,
        c.project is Some ==> c@.project->0 == c.project->0@,
        c@.service is Some <==> c.service is Some,
        c.service is Some ==> c@.service->0 == c.service->0@,
        c@.cpu_percent == c.cpu_percent,
        c@.memory == c.memory@,
        c@.net_io == c.net_io@,
        c@.block_io == c.block_io@,
{
}

/// The model of a row of statistics is what its fields hold.
pub proof fn statistics_are_what_they_hold(r: StatRow)
    ensures
        r@.id is Some <==> r.id is Some,
        r.id is Some ==> r@.id->0 == r.id->0@,
        r@.name is Some <==> r.name is Some,
        r.name is Some ==> r@.name->0 == r.name->0@,
        r@.cpu is Some <==> r.cpu is Some,
        r.cpu is Some ==> r@.cpu->0 == r.cpu->0@,
        r@.memory is Some <==> r.memory is Some,
        r.memory is Some ==> r@.memory->0 == r.memory->0@,
        r@.net_io is Some <==> r.net_io is Some,
        r.net_io is Some ==> r@.net_io->0 == r.net_io->0@,
        r@.block_io is Some <==> r.block_io is Some,
        r.block_io is Some ==> r@.block_io->0 == r.block_io->0@,
{
}

/// The model of a row of metadata is what its fields hold.
pub proof fn metadata_are_what_they_hold(r: MetaRow)
    ensures
        r@.id is Some <==> r.id is Some,
        r.id is Some ==> r@.id->0 == r.id->0@,
        r@.image is Some <==> r.image is Some,
        r.image is Some ==> r@.image->0 == r.image->0@,
        r@.project is Some <==> r.project is Some,
        r.project is Some ==> r@.project->0 == r.project->0@,
        r@.service is Some <==> r.service is Some,
        r.service is Some ==> r@.service->0 == r.service->0@,
{
}

/// The model of an identity is what its fields hold.
pub proof fn an_identity_is_what_it_holds(i: Identity)
    ensures
        i@.tool == i.tool@,
        i@.profile is Some <==> i.profile is Some,
        i.profile is Some ==> i@.profile->0 == i.profile->0@,
        i@.lima_home is Some <==> i.lima_home is Some,
        i.lima_home is Some ==> i@.lima_home->0 == i.lima_home->0@,
        i@.instance is Some <==> i.instance is Some,
        i.instance is Some ==> i@.instance->0 == i.instance->0@,
        i@.docker_socket is Some <==> i.docker_socket is Some,
        i.docker_socket is Some ==> i@.docker_socket->0 == i.docker_socket->0@,
        i@.evidence == i.evidence@,
{
}

/// The model of a row of a process is what its fields hold.
pub proof fn a_process_row_is_what_it_holds(p: ProcRow)
    ensures
        p@.pid == p.pid,
        p@.start_abstime == p.start_abstime,
        p@.executable is Some <==> p.executable is Some,
        p.executable is Some ==> p@.executable->0 == p.executable->0@,
        p@.footprint_bytes == p.footprint_bytes,
        p@.ppid == p.ppid,
        p@.uid == p.uid,
        p@.same_uid == p.same_uid,
        p@.name == p.name@,
        p@.cpu_percent == p.cpu_percent,
        p@.energy_mw == p.energy_mw,
        p@.lifetime_energy_j == p.lifetime_energy_j,
        p@.disk_read_bps == p.disk_read_bps,
        p@.disk_write_bps == p.disk_write_bps,
        p@.wakeups_per_s == p.wakeups_per_s,
{
}

/// The model of a table row is what its fields hold.
pub proof fn a_table_row_is_what_it_holds(r: TableRow)
    ensures
        r@.cells.len() == r.cells@.len(),
        forall|k: int| 0 <= k < r.cells@.len() ==> #[trigger] r@.cells[k] == r.cells@[k]@,
        r@.tone == r.tone,
{
}

/// The model of a chart is what its fields hold.
pub proof fn a_chart_is_what_it_holds(c: Curves)
    ensures
        c@.battery == c.battery@,
        c@.system == c.system@,
        c@.from == c.from,
        c@.to == c.to,
        c@.peak == c.peak,
        c@.label == c.label@,
{
}

/// The model of a table is what its fields hold.
pub proof fn a_table_is_what_it_holds(g: Grid)
    ensures
        g@.title == g.title@,
        g@.headers.len() == g.headers@.len(),
        forall|k: int| 0 <= k < g.headers@.len() ==> #[trigger] g@.headers[k] == g.headers@[k]@,
        g@.widths == g.widths@,
        g@.rows.len() == g.rows@.len(),
        forall|k: int| 0 <= k < g.rows@.len() ==> #[trigger] g@.rows[k] == g.rows@[k]@,
        g@.selected == g.selected,
{
}

/// The model of a dashboard is what its fields hold.
pub proof fn a_dashboard_is_what_it_holds(d: Dashboard)
    ensures
        d@.chart_height == d.chart_height,
        d@.evidence_height == d.evidence_height,
        d@.heading == d.heading@,
        d@.path == d.path@,
        d@.machine.len() == d.machine@.len(),
        forall|k: int| 0 <= k < d.machine@.len() ==> #[trigger] d@.machine[k] == d.machine@[k]@,
        d@.curves == d.curves@,
        d@.list == d.list@,
        d@.evidence.len() == d.evidence@.len(),
        forall|k: int| 0 <= k < d.evidence@.len() ==> #[trigger] d@.evidence[k] == d.evidence@[k]@,
        d@.footer == d.footer@,
{
}

/// The model of a live view is what its fields hold.
pub proof fn a_live_view_is_what_it_holds(v: View)
    ensures
        v@.selected == v.selected,
        v@.totals == v.totals,
        v@.marker is Some <==> v.marker is Some,
        v.marker is Some ==> v@.marker->0 == v.marker->0@,
        v@.detail == v.detail,
        v@.tree_selected == v.tree_selected,
        v@.vm_target == v.vm_target,
        v@.vm_focus == v.vm_focus,
        v@.vm_processes == v.vm_processes,
        v@.vm_selected == v.vm_selected,
{
}

} // verus!
