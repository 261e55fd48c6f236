//! What keys do, and when a session takes its steps.

use crate::command::{result_of, Collected, FailureView};
use crate::ledger::{rolling_of, LedgerView};
use crate::notation::{
    classes_of_characters, decimals_write_the_nearest, searches_find_only_what_is_there,
    searches_find_what_was_put_there, writes,
};
use crate::num::{digits, known, right, signed_fixed};
use crate::session::{
    first_machine, is_gap, length_of, since, status_text, stepped, Action, Phase, Session, Target,
};
use crate::text::{opt_text, trimmed};
use crate::types::ProcRow;
use crate::ui::{after_event, at_start, size, Event, InputView, KeyCode, ViewState};
use crate::vm::runs_vm;
use vstd::prelude::*;

verus! {

/// A key that is pressed alone.
pub open spec fn press(code: KeyCode) -> Event {
    Event::Key { code, released: false, control: false }
}

/// The two views differ at most in what is selected in the list.
pub open spec fn same_but_selection(a: ViewState, b: ViewState) -> bool {
    &&& a.totals == b.totals
    &&& a.marker == b.marker
    &&& a.detail == b.detail
    &&& a.vm_target == b.vm_target
    &&& a.vm_focus == b.vm_focus
    &&& a.vm_processes == b.vm_processes
    &&& a.vm_selected == b.vm_selected
}

/// The number is so much greater, or as great as can be.
pub open spec fn is_up_by(a: usize, b: usize, n: int) -> bool {
    a == b + n || (a == usize::MAX && b + n > usize::MAX)
}

/// The number is so much smaller, or zero.
pub open spec fn is_down_by(a: usize, b: usize, n: int) -> bool {
    a == b - n || (a == 0 && b < n)
}

/// Releasing a key does nothing; control and `c` end the program in any state.
pub proof fn releases_do_nothing_and_interrupts_quit(
    s: ViewState,
    code: KeyCode,
    control: bool,
    rows: Seq<ProcRow>,
)
    ensures
        after_event(s, Event::Other, rows) == (s, InputView::Nothing),
        after_event(s, Event::Key { code, released: true, control }, rows) == (
            s,
            InputView::Nothing,
        ),
        after_event(
            s,
            Event::Key { code: KeyCode::Char('c'), released: false, control: true },
            rows,
        ) == (s, InputView::Quit),
{
}

/// In the list, `q` and escape end the program, `m` begins an empty label, `s`
/// goes to the totals or back and to the first row.
pub proof fn keys_of_the_list(s: ViewState, rows: Seq<ProcRow>)
    requires
        s.vm_target is None || !s.vm_focus,
        s.marker is None,
    ensures
        after_event(s, press(KeyCode::Char('q')), rows) == (s, InputView::Quit),
        after_event(s, press(KeyCode::Esc), rows) == (s, InputView::Quit),
        ({
            let (a, i) = after_event(s, press(KeyCode::Char('m')), rows);
            i is Nothing && a == (ViewState { marker: Some(Seq::<char>::empty()), ..s })
        }),
        ({
            let (a, i) = after_event(s, press(KeyCode::Char('s')), rows);
            i is Nothing && a == (ViewState {
                totals: !s.totals,
                selected: 0,
                tree_selected: 0,
                ..s
            })
        }),
        after_event(s, press(KeyCode::Tab), rows) == (s, InputView::Nothing),
        after_event(s, press(KeyCode::Backspace), rows) == (s, InputView::Nothing),
        after_event(s, press(KeyCode::Other), rows) == (s, InputView::Nothing),
        forall|c: char|
            c != 'q' && c != 'm' && c != 's' && c != 'j' && c != 'k' && c != 'g' && c != 'G' && c
                != 'd' ==> #[trigger] after_event(s, press(KeyCode::Char(c)), rows) == (
                s,
                InputView::Nothing,
            ),
{
}

/// Down goes one row down and ten with the page key, up goes back, `g` to the
/// top and `G` to the bottom. The letters are like the arrows. The process
/// goes along down to the last one, and up with the row.
pub proof fn keys_move_the_selection(s: ViewState, rows: Seq<ProcRow>)
    requires
        s.vm_target is None || !s.vm_focus,
        s.marker is None,
    ensures
        after_event(s, press(KeyCode::Char('j')), rows) == after_event(
            s,
            press(KeyCode::Down),
            rows,
        ),
        after_event(s, press(KeyCode::Char('k')), rows) == after_event(s, press(KeyCode::Up), rows),
        ({
            let (a, i) = after_event(s, press(KeyCode::Down), rows);
            &&& i is Nothing
            &&& same_but_selection(a, s)
            &&& is_up_by(a.tree_selected, s.tree_selected, 1)
            &&& a.tree_selected < rows.len() ==> a.selected == a.tree_selected
            &&& a.tree_selected >= rows.len() ==> a.selected == s.selected
        }),
        ({
            let (a, i) = after_event(s, press(KeyCode::Up), rows);
            &&& i is Nothing
            &&& same_but_selection(a, s)
            &&& is_down_by(a.tree_selected, s.tree_selected, 1)
            &&& a.selected <= a.tree_selected && a.selected <= s.selected
            &&& a.selected == a.tree_selected || a.selected == s.selected
        }),
        ({
            let (a, i) = after_event(s, press(KeyCode::PageDown), rows);
            &&& i is Nothing
            &&& same_but_selection(a, s)
            &&& is_up_by(a.tree_selected, s.tree_selected, 10)
            &&& a.selected == s.selected
        }),
        ({
            let (a, i) = after_event(s, press(KeyCode::PageUp), rows);
            &&& i is Nothing
            &&& same_but_selection(a, s)
            &&& is_down_by(a.tree_selected, s.tree_selected, 10)
            &&& a.selected == s.selected
        }),
        ({
            let (a, i) = after_event(s, press(KeyCode::Char('g')), rows);
            i is Nothing && same_but_selection(a, s) && a.tree_selected == 0 && a.selected == 0
        }),
        ({
            let (a, i) = after_event(s, press(KeyCode::Char('G')), rows);
            &&& i is Nothing
            &&& same_but_selection(a, s)
            &&& a.selected == s.selected
            &&& a.tree_selected == usize::MAX
        }),
{
}

/// Enter or `d` looks into the selected process if it is a virtual machine, by
/// its number and start, and otherwise shows or hides details. Totals are not
/// processes.
pub proof fn enter_looks_into_machines(s: ViewState, rows: Seq<ProcRow>)
    requires
        s.vm_target is None || !s.vm_focus,
        s.marker is None,
    ensures
        after_event(s, press(KeyCode::Char('d')), rows) == after_event(
            s,
            press(KeyCode::Enter),
            rows,
        ),
        ({
            let (a, i) = after_event(s, press(KeyCode::Enter), rows);
            let p = rows[s.selected as int];
            let machine = !s.totals && s.selected < rows.len() && runs_vm(
                p.name@,
                match p.executable {
                    Some(e) => Some(e@),
                    None => None,
                },
            );
            &&& machine ==> i is Dive && a == (ViewState {
                vm_target: Some((p.pid, p.start_abstime)),
                vm_focus: true,
                vm_selected: 0,
                ..s
            })
            &&& !machine ==> i is Nothing && a == (ViewState { detail: !s.detail, ..s })
        }),
{
}

/// Inside a machine escape leaves it, `q` ends the program, `d` asks for a new
/// inspection, tab changes between containers and processes, and the arrows
/// move by one.
pub proof fn keys_inside_a_machine(s: ViewState, rows: Seq<ProcRow>)
    requires
        s.vm_target is Some,
        s.vm_focus,
    ensures
        after_event(s, press(KeyCode::Char('q')), rows) == (s, InputView::Quit),
        after_event(s, press(KeyCode::Char('d')), rows) == (s, InputView::Dive),
        after_event(s, press(KeyCode::Esc), rows) == (
            ViewState { vm_focus: false, ..s },
            InputView::Nothing,
        ),
        after_event(s, press(KeyCode::Backspace), rows) == after_event(
            s,
            press(KeyCode::Esc),
            rows,
        ),
        after_event(s, press(KeyCode::Tab), rows) == (
            ViewState { vm_processes: !s.vm_processes, vm_selected: 0, ..s },
            InputView::Nothing,
        ),
        after_event(s, press(KeyCode::Char('j')), rows) == after_event(
            s,
            press(KeyCode::Down),
            rows,
        ),
        after_event(s, press(KeyCode::Char('k')), rows) == after_event(s, press(KeyCode::Up), rows),
        ({
            let (a, i) = after_event(s, press(KeyCode::Down), rows);
            &&& i is Nothing
            &&& is_up_by(a.vm_selected, s.vm_selected, 1)
            &&& a == (ViewState { vm_selected: a.vm_selected, ..s })
        }),
        ({
            let (a, i) = after_event(s, press(KeyCode::Up), rows);
            &&& i is Nothing
            &&& is_down_by(a.vm_selected, s.vm_selected, 1)
            &&& a == (ViewState { vm_selected: a.vm_selected, ..s })
        }),
        after_event(s, press(KeyCode::Enter), rows) == (s, InputView::Nothing),
        after_event(s, press(KeyCode::PageDown), rows) == (s, InputView::Nothing),
        after_event(s, press(KeyCode::PageUp), rows) == (s, InputView::Nothing),
{
}

/// While a label is typed, a character is put at its end unless it is a control
/// character or the label has 200 bytes, backspace takes one away, escape drops
/// the label, and enter marks a change with it unless it is blank.
pub proof fn keys_write_the_label(s: ViewState, label: Seq<char>, c: char, rows: Seq<ProcRow>)
    requires
        s.vm_target is None || !s.vm_focus,
        s.marker == Some(label),
    ensures
        ({
            let (a, i) = after_event(s, press(KeyCode::Char(c)), rows);
            let refused = c < ' ' || '\u{7f}' <= c <= '\u{9f}' || size(label) >= 200;
            &&& i is Nothing
            &&& refused ==> a == s
            &&& !refused ==> a == (ViewState { marker: Some(label.push(c)), ..s })
        }),
        ({
            let (a, i) = after_event(s, press(KeyCode::Backspace), rows);
            &&& i is Nothing
            &&& label.len() == 0 ==> a == s
            &&& label.len() > 0 ==> a == (ViewState {
                marker: Some(label.take(label.len() - 1)),
                ..s
            })
        }),
        after_event(s, press(KeyCode::Esc), rows) == (
            ViewState { marker: None, ..s },
            InputView::Nothing,
        ),
        ({
            let (a, i) = after_event(s, press(KeyCode::Enter), rows);
            &&& a == (ViewState { marker: None, ..s })
            &&& trimmed(label).len() == 0 ==> i is Nothing
            &&& trimmed(label).len() > 0 ==> i == InputView::Mark(trimmed(label))
        }),
{
    classes_of_characters(c);
    if label.len() > 0 {
        assert(label.drop_last() =~= label.take(label.len() - 1));
    }
}

/// The size of a text is counted in bytes of UTF-8.
pub proof fn sizes_are_bytes(s: Seq<char>, c: char)
    ensures
        size(seq![]) == 0,
        size(s.push(c)) == size(s) + (if (c as int) < 0x80 {
            1int
        } else if (c as int) < 0x800 {
            2
        } else if (c as int) < 0x10000 {
            3
        } else {
            4
        }),
{
    assert(s.push(c).drop_last() =~= s);
}

/// A process is a virtual machine by its name, which holds `VirtualMachine`,
/// begins with `qemu-system` or is `vfkit`, or by its path, which holds
/// `Virtualization.framework`.
pub proof fn machines_are_known_by_name_or_path(
    a: Seq<char>,
    b: Seq<char>,
    name: Seq<char>,
    path: Option<Seq<char>>,
)
    ensures
        runs_vm(a + "VirtualMachine"@ + b, path),
        runs_vm("qemu-system"@ + b, path),
        runs_vm("vfkit"@, path),
        runs_vm(name, Some(a + "Virtualization.framework"@ + b)),
        runs_vm(name, path) ==> {
            ||| exists|i: int|
                0 <= i && i + "VirtualMachine"@.len() <= name.len() && #[trigger] name.subrange(
                    i,
                    i + "VirtualMachine"@.len(),
                ) == "VirtualMachine"@
            ||| name.len() >= "qemu-system"@.len() && name.take("qemu-system"@.len() as int)
                == "qemu-system"@
            ||| name == "vfkit"@
            ||| path is Some && exists|i: int|
                0 <= i && i + "Virtualization.framework"@.len() <= path->0.len()
                    && #[trigger] path->0.subrange(
                    i,
                    i + "Virtualization.framework"@.len(),
                ) == "Virtualization.framework"@
        },
{
    searches_find_what_was_put_there(a, "VirtualMachine"@, b);
    searches_find_what_was_put_there(a, "qemu-system"@, b);
    searches_find_what_was_put_there(a, "Virtualization.framework"@, b);
    searches_find_only_what_is_there(name, "VirtualMachine"@);
    searches_find_only_what_is_there(name, "qemu-system"@);
    if let Some(p) = path {
        searches_find_only_what_is_there(p, "Virtualization.framework"@);
    }
}

/// The machine that a session looks into first is the first in the sample.
pub proof fn the_first_machine_is_looked_into(rows: Seq<ProcRow>, k: int)
    requires
        0 <= k <= rows.len(),
        forall|i: int|
            0 <= i < k ==> !runs_vm(
                (#[trigger] rows[i]).name@,
                match rows[i].executable {
                    Some(e) => Some(e@),
                    None => None,
                },
            ),
        k < rows.len() ==> runs_vm(
            rows[k].name@,
            match rows[k].executable {
                Some(e) => Some(e@),
                None => None,
            },
        ),
    ensures
        k == rows.len() ==> first_machine(rows) is None,
        k < rows.len() ==> first_machine(rows) == Some((rows[k].pid, rows[k].start_abstime)),
    decreases rows.len(),
{
    if rows.len() > 0 {
        if k > 0 {
            assert(!runs_vm(rows[0].name@, opt_text(rows[0].executable)));
            let rest = rows.skip(1);
            assert forall|i: int| 0 <= i < k - 1 implies !runs_vm(
                (#[trigger] rest[i]).name@,
                match rest[i].executable {
                    Some(e) => Some(e@),
                    None => None,
                },
            ) by {
                assert(rest[i] == rows[i + 1]);
            }
            the_first_machine_is_looked_into(rest, k - 1);
        } else {
            assert(runs_vm(rows[0].name@, opt_text(rows[0].executable)));
        }
    }
}

/// A gap is an interval that does not go forward, or that is longer than both
/// three intervals and ten seconds. An interval lasts what the clock says, in
/// nanoseconds, and a millisecond at least.
pub proof fn gaps_are_late_or_backward(interval_s: u64, last_wall: i64, wall: i64)
    ensures
        wall <= last_wall ==> is_gap(interval_s, last_wall, wall),
        wall > last_wall ==> (is_gap(interval_s, last_wall, wall) <==> (wall - last_wall
            > 3_000_000 * interval_s && wall - last_wall > 10_000_000)),
        1_000 <= wall - last_wall && (wall - last_wall) * 1_000 <= u64::MAX ==> length_of(
            last_wall,
            wall,
        ) == (wall - last_wall) * 1_000,
        wall - last_wall < 1_000 ==> length_of(last_wall, wall) == 1_000_000,
        (wall - last_wall) * 1_000 > u64::MAX ==> length_of(last_wall, wall) == u64::MAX,
        i64::MIN <= wall - last_wall <= i64::MAX ==> since(last_wall, wall) == wall - last_wall,
        wall - last_wall > i64::MAX ==> since(last_wall, wall) == i64::MAX,
        wall - last_wall < i64::MIN ==> since(last_wall, wall) == i64::MIN,
{
}

/// A session ends when it is stopped or its seconds are over.
pub proof fn sessions_end_in_time(s: Session, now: u64, stopped: bool, target: Option<Target>)
    requires
        s.phase is Check,
    ensures
        ({
            let (next, action) = stepped(s, now, stopped, target);
            let ended = stopped || (s.duration_s is Some && (now >= s.duration_s->0 * 1_000_000_000
                || now == u64::MAX));
            &&& ended ==> action is Finish && next == s
            &&& !ended ==> action is Collect && next == (Session { phase: Phase::Inspect, ..s })
        }),
{
}

/// In a round, what is due is done in order: an inspection of a target if none
/// is under way, a sample, the sleep assertions, the screen if it is out of
/// date, and a wait. What is not due is passed over.
pub proof fn rounds_do_what_is_due(s: Session, now: u64, stopped: bool, target: Option<Target>)
    requires
        !(s.phase is Check),
    ensures
        ({
            let (next, action) = stepped(s, now, stopped, target);
            let inspect = s.phase is Inspect && target is Some && !s.vm_inflight && now >= s.vm_due;
            let sample = (s.phase is Inspect || s.phase is Sample) && now >= s.next;
            let context = !(s.phase is Show) && !(s.phase is Listen) && now >= s.context_due;
            let draw = !(s.phase is Listen) && s.interactive && s.dirty;
            if inspect {
                action == Action::Inspect((target->0).0, (target->0).1) && next == (Session {
                    phase: Phase::Sample,
                    vm_inflight: true,
                    ..s
                })
            } else if sample {
                action is Sample && next == (Session { phase: Phase::Context, ..s })
            } else if context {
                action is Context && next == (Session { phase: Phase::Show, ..s })
            } else if draw {
                action is Draw && next == (Session { phase: Phase::Listen, dirty: false, ..s })
            } else {
                (if s.interactive {
                    action is Poll
                } else {
                    action is Rest
                }) && next == (Session { phase: Phase::Check, ..s })
            }
        }),
{
    reveal_with_fuel(stepped, 6);
}

/// What the line of a session without a screen says: the mean of the last
/// minute and the energy observed in watt hours with four decimals.
pub proof fn status_lines_say_what_was_observed(l: LedgerView)
    ensures
        exists|wh: Seq<char>| #[trigger]
            writes(wh, l.battery_j as int, 360_000_000_000_000_000, 4) && status_text(l) == "+"@
                + right(signed_fixed(l.elapsed as int, 1_000_000, 0), 5) + "s  battery "@ + known(
                rolling_of(l),
                100_000_000,
            ) + " W  observed "@ + wh + " Wh  CPU counters "@ + digits(l.measured_procs as nat)
                + "/"@ + digits(l.total_procs as nat),
{
    decimals_write_the_nearest(l.battery_j as nat, 360_000_000_000_000_000, 4);
}

/// A program's output is what it wrote, if it succeeded and both pipes were
/// read in time. A failure says the status, then the errors, then the output.
pub proof fn outputs_need_success_and_both_pipes(
    success: bool,
    status: Seq<char>,
    stdout: Collected,
    stderr: Collected,
)
    ensures
        ({
            let r = result_of(success, status, stdout, stderr);
            let whole = stdout is Some && stdout->0 is Ok && stderr is Some && stderr->0 is Ok;
            &&& r is Ok <==> success && whole
            &&& r is Ok ==> r->Ok_0 == (stdout->0->Ok_0)@
            &&& whole && !success ==> r->Err_0 == FailureView::Failed(
                status + ": "@ + (stderr->0->Ok_0)@ + (stdout->0->Ok_0)@,
            )
            &&& stdout is None ==> r->Err_0 == FailureView::TimedOut("command output timed out"@)
            &&& stdout is Some && stdout->0 is Err ==> r->Err_0 == FailureView::Failed(
                (stdout->0->Err_0)@,
            )
            &&& stdout is Some && stdout->0 is Ok && stderr is None ==> r->Err_0
                == FailureView::TimedOut("command errors timed out"@)
            &&& stdout is Some && stdout->0 is Ok && stderr is Some && stderr->0 is Err ==> r->Err_0
                == FailureView::Failed((stderr->0->Err_0)@)
        }),
{
}

/// At the start the list of processes is shown from its first row, without
/// details, label or machine.
pub proof fn the_view_starts_at_the_top()
    ensures
        ({
            let v = at_start();
            &&& v.selected == 0
            &&& v.tree_selected == 0
            &&& v.vm_selected == 0
            &&& !v.totals
            &&& !v.detail
            &&& !v.vm_focus
            &&& !v.vm_processes
            &&& v.marker is None
            &&& v.vm_target is None
        }),
{
}

} // verus!
