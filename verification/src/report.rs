//! The report of a ledger.

use crate::analysis::{Comparison, Consumer, ConsumerView, Window};
use crate::inspection::Inspection;
use crate::ledger::{consumer_keys, Ledger, LedgerView};
use crate::num::{self, digits, fixed, known, left, right, signed_fixed};
use crate::order::ranking;
use crate::text;
use vstd::prelude::*;
use vstd::string::*;

verus! {

/// How many groups the report lists.
pub const LISTED: usize = 20;

/// What was recorded and what the battery gave.
pub open spec fn battery_text(l: LedgerView) -> Seq<char> {
    "Recorded "@ + signed_fixed(l.elapsed as int, 1_000_000, 0) + "s, "@ + digits(
        l.samples as nat,
    ) + " samples. "@ + (if l.ended {
        "Clean stop."@
    } else {
        "Live or interrupted recording."@
    }) + "\nBattery: "@ + fixed(l.battery_j as nat, 3_600_000_000_000_000_000, 3) + " Wh / "@
        + fixed(l.battery_seconds as nat, 1_000_000_000, 0) + "s observed on battery, mean "@
        + known(
        (Window { joules: l.battery_j, seconds: l.battery_seconds }).mean_of(),
        100_000_000,
    ) + " W, "@ + digits(l.gaps as nat) + " gaps excluded.\n"@
}

/// What the machine's own sensor measured.
pub open spec fn system_text(l: LedgerView) -> Seq<char> {
    "SMC system power: mean "@ + known(l.system_energy.mean_of(), 100_000_000) + " W over "@
        + fixed(l.system_energy.seconds as nat, 1_000_000_000, 0)
        + "s (also measured on AC).\n"@
}

/// The interval with the greatest discharge, if any was observed.
pub open spec fn peak_text(l: LedgerView) -> Seq<char> {
    if l.battery_seconds > 0 {
        "Peak interval: "@ + fixed(l.peak_w as nat, 100_000_000, 1) + " W at +"@ + signed_fixed(
            l.peak_at as int,
            1_000_000,
            0,
        ) + "s. Concurrent CPU users: "@ + l.peak_consumers + "\n"@
    } else {
        seq![]
    }
}

/// The CPU energy of a group, or a dash if none was measured.
pub open spec fn energy_text(c: ConsumerView) -> Seq<char> {
    if c.energy_samples > 0 {
        fixed(c.cpu_j as nat, 36_000_000_000_000_000, 5)
    } else {
        "—"@
    }
}

/// The line of one group.
pub open spec fn group_text(c: ConsumerView) -> Seq<char> {
    left(c.name, 30) + " "@ + right(energy_text(c), 9) + " CPU Wh  "@ + right(
        fixed(c.cpu_s as nat, 10_000_000_000_000_000, 1),
        8,
    ) + " CPU s  "@ + right(fixed(c.wakeups as nat, 1_000_000_000_000_000, 0), 9) + " wakeups\n"@
}

/// The lines of the first `n` ranked groups.
pub open spec fn groups_text(groups: Seq<ConsumerView>, n: int) -> Seq<char>
    decreases n,
{
    if n <= 0 {
        seq![]
    } else {
        groups_text(groups, n - 1) + group_text(
            groups[ranking(consumer_keys(groups))[n - 1] as int],
        )
    }
}

/// How many groups are listed.
pub open spec fn listed(groups: Seq<ConsumerView>) -> int {
    if groups.len() < LISTED {
        groups.len() as int
    } else {
        LISTED as int
    }
}

/// The lines of the changes that were marked.
pub open spec fn changes_text(cs: Seq<Comparison>) -> Seq<char>
    decreases cs.len(),
{
    if cs.len() == 0 {
        seq![]
    } else {
        changes_text(cs.drop_last()) + "\nChange +"@ + signed_fixed(
            cs.last().t as int,
            1_000_000,
            0,
        ) + "s: "@ + cs.last().text() + "\n"@
    }
}

/// What keeps the machine from sleeping, if anything does.
pub open spec fn assertions_text(l: LedgerView) -> Seq<char> {
    if l.assertions.len() == 0 {
        seq![]
    } else {
        "\nLatest sleep assertions:\n"@ + l.assertions + "\n"@
    }
}

/// The reports of the latest inspections.
pub open spec fn machines_text(vms: Seq<Inspection>) -> Seq<char>
    decreases vms.len(),
{
    if vms.len() == 0 {
        seq![]
    } else {
        machines_text(vms.drop_last()) + "\nLatest VM inspection (Unix "@ + signed_fixed(
            vms.last().finished_at as int,
            1_000_000,
            0,
        ) + "):\n"@ + vms.last().text()
    }
}

/// The notices in the order in which they came.
pub open spec fn notices_text(notices: Seq<String>) -> Seq<char>
    decreases notices.len(),
{
    if notices.len() == 0 {
        seq![]
    } else {
        notices_text(notices.drop_last()) + "Notice: "@ + notices.last()@ + "\n"@
    }
}

/// The report of a ledger.
pub open spec fn report_text(l: LedgerView) -> Seq<char> {
    battery_text(l) + system_text(l) + peak_text(l)
        + "\nCPU energy during recording (not whole-app battery energy):\n"@ + groups_text(
        l.groups,
        listed(l.groups),
    ) + "\nLatest CPU energy coverage: "@ + digits(l.measured_procs as nat) + "/"@ + digits(
        l.total_procs as nat,
    ) + " processes. Missing counters are unknown.\n"@ + changes_text(l.comparisons)
        + assertions_text(l) + machines_text(l.vms) + notices_text(l.notices)
}

fn group_line(c: &Consumer) -> (r: String)
    ensures
        r@ == group_text(c@),
{
    let energy = if c.energy_samples > 0 {
        num::render(c.cpu_j, 36_000_000_000_000_000, 5)
    } else {
        text::copy("—")
    };
    let mut r = num::pad_right(c.name.as_str(), 30);
    r.append(" ");
    r.append(num::pad_left(energy.as_str(), 9).as_str());
    r.append(" CPU Wh  ");
    r.append(
        num::pad_left(num::render(c.cpu_s, 10_000_000_000_000_000, 1).as_str(), 8).as_str(),
    );
    r.append(" CPU s  ");
    r.append(
        num::pad_left(num::render(c.wakeups, 1_000_000_000_000_000, 0).as_str(), 9).as_str(),
    );
    r.append(" wakeups\n");
    r
}

impl Ledger {
    fn battery_part(&self) -> (r: String)
        ensures
            r@ == battery_text(self@),
    {
        let mut r = text::copy("Recorded ");
        r.append(num::signed_render(self.elapsed as i128, 1_000_000, 0).as_str());
        r.append("s, ");
        r.append(num::decimal(self.samples as u128).as_str());
        r.append(" samples. ");
        r.append(
            if self.ended {
                "Clean stop."
            } else {
                "Live or interrupted recording."
            },
        );
        r.append("\nBattery: ");
        r.append(num::render(self.battery_j, 3_600_000_000_000_000_000, 3).as_str());
        r.append(" Wh / ");
        r.append(num::render(self.battery_seconds, 1_000_000_000, 0).as_str());
        r.append("s observed on battery, mean ");
        let whole = Window { joules: self.battery_j, seconds: self.battery_seconds };
        r.append(num::number(whole.mean(), 100_000_000).as_str());
        r.append(" W, ");
        r.append(num::decimal(self.gaps as u128).as_str());
        r.append(" gaps excluded.\n");
        r
    }

    fn system_part(&self) -> (r: String)
        ensures
            r@ == system_text(self@),
    {
        let mut r = text::copy("SMC system power: mean ");
        r.append(num::number(self.system_energy.mean(), 100_000_000).as_str());
        r.append(" W over ");
        r.append(num::render(self.system_energy.seconds, 1_000_000_000, 0).as_str());
        r.append("s (also measured on AC).\n");
        r
    }

    fn peak_part(&self) -> (r: String)
        ensures
            r@ == peak_text(self@),
    {
        if self.battery_seconds > 0 {
            let mut r = text::copy("Peak interval: ");
            r.append(num::render(self.peak_w as u128, 100_000_000, 1).as_str());
            r.append(" W at +");
            r.append(num::signed_render(self.peak_at as i128, 1_000_000, 0).as_str());
            r.append("s. Concurrent CPU users: ");
            r.append(self.peak_consumers.as_str());
            r.append("\n");
            r
        } else {
            let r = String::new();
            assert(r@ =~= seq![]);
            r
        }
    }

    fn groups_part(&self) -> (r: String)
        ensures
            r@ == groups_text(self@.groups, listed(self@.groups)),
    {
        let mut r = String::new();
        let rows = self.ranked();
        let mut i: usize = 0;
        assert(r@ =~= seq![]);
        while i < rows.len() && i < LISTED
            invariant
                i <= rows@.len(),
                i <= LISTED,
                self.is_ranked(rows@),
                r@ == groups_text(self@.groups, i as int),
            decreases rows.len() - i,
        {
            r.append(group_line(rows[i]).as_str());
            i += 1;
        }
        r
    }

    fn changes_part(&self) -> (r: String)
        ensures
            r@ == changes_text(self@.comparisons),
    {
        let mut r = String::new();
        let mut i: usize = 0;
        let cs = &self.comparisons;
        assert(r@ =~= seq![]);
        while i < cs.len()
            invariant
                i <= cs@.len(),
                r@ == changes_text(cs@.take(i as int)),
            decreases cs.len() - i,
        {
            r.append("\nChange +");
            r.append(num::signed_render(cs[i].t as i128, 1_000_000, 0).as_str());
            r.append("s: ");
            r.append(cs[i].description().as_str());
            r.append("\n");
            assert(cs@.take(i + 1).drop_last() =~= cs@.take(i as int));
            i += 1;
        }
        assert(cs@.take(i as int) =~= cs@);
        r
    }

    fn assertions_part(&self) -> (r: String)
        ensures
            r@ == assertions_text(self@),
    {
        let a = text::chars(self.assertions.as_str());
        if a.len() == 0 {
            let r = String::new();
            assert(r@ =~= seq![]);
            r
        } else {
            let mut r = text::copy("\nLatest sleep assertions:\n");
            r.append(self.assertions.as_str());
            r.append("\n");
            r
        }
    }

    fn machines_part(&self) -> (r: String)
        ensures
            r@ == machines_text(self@.vms),
    {
        let mut r = String::new();
        let mut i: usize = 0;
        let vms = &self.vms;
        assert(r@ =~= seq![]);
        while i < vms.len()
            invariant
                i <= vms@.len(),
                r@ == machines_text(vms@.take(i as int)),
            decreases vms.len() - i,
        {
            r.append("\nLatest VM inspection (Unix ");
            r.append(num::signed_render(vms[i].finished_at as i128, 1_000_000, 0).as_str());
            r.append("):\n");
            r.append(vms[i].report().as_str());
            assert(vms@.take(i + 1).drop_last() =~= vms@.take(i as int));
            i += 1;
        }
        assert(vms@.take(i as int) =~= vms@);
        r
    }

    fn notices_part(&self) -> (r: String)
        ensures
            r@ == notices_text(self@.notices),
    {
        let mut r = String::new();
        let mut i: usize = 0;
        let ns = &self.notices;
        assert(r@ =~= seq![]);
        while i < ns.len()
            invariant
                i <= ns@.len(),
                r@ == notices_text(ns@.take(i as int)),
            decreases ns.len() - i,
        {
            r.append("Notice: ");
            r.append(ns[i].as_str());
            r.append("\n");
            assert(ns@.take(i + 1).drop_last() =~= ns@.take(i as int));
            i += 1;
        }
        assert(ns@.take(i as int) =~= ns@);
        r
    }

    /// What the recording shows, as text.
    pub fn report(&self) -> (r: String)
        ensures
            r@ == report_text(self@),
    {
        let mut out = self.battery_part();
        out.append(self.system_part().as_str());
        out.append(self.peak_part().as_str());
        out.append("\nCPU energy during recording (not whole-app battery energy):\n");
        out.append(self.groups_part().as_str());
        out.append("\nLatest CPU energy coverage: ");
        out.append(num::decimal(self.measured_procs as u128).as_str());
        out.append("/");
        out.append(num::decimal(self.total_procs as u128).as_str());
        out.append(" processes. Missing counters are unknown.\n");
        out.append(self.changes_part().as_str());
        out.append(self.assertions_part().as_str());
        out.append(self.machines_part().as_str());
        out.append(self.notices_part().as_str());
        out
    }
}

} // verus!
