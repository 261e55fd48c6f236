//! The live view: what a key does to it.

use crate::inspection::width;
use crate::ledger::{Ledger, LedgerView};
use crate::order::{self, key_of, ranking, Key};
use crate::text::{self, is_control, opt_text, trimmed};
use crate::types::ProcRow;
use crate::vm::{self, runs_vm};
use vstd::prelude::*;
use vstd::string::*;
use vstd::view::View as _;

verus! {

/// A key that the view knows.
#[derive(Debug, Clone, Copy, PartialEq, Eq)]
pub enum KeyCode {
    Enter,
    Esc,
    Backspace,
    Tab,
    Up,
    Down,
    PageUp,
    PageDown,
    Char(char),
    Other,
}

/// What the terminal reports.
#[derive(Debug, Clone, Copy, PartialEq, Eq)]
pub enum Event {
    Key { code: KeyCode, released: bool, control: bool },
    Other,
}

/// What a key asks of the program.
#[derive(Debug, PartialEq, Eq)]
pub enum Input {
    Nothing,
    Quit,
    /// Mark a change with this label.
    Mark(String),
    /// Look into the virtual machine that is the target.
    Dive,
}

/// `Input` with its label as a sequence.
pub ghost enum InputView {
    Nothing,
    Quit,
    Mark(Seq<char>),
    Dive,
}

impl vstd::view::View for Input {
    type V = InputView;

    open spec fn view(&self) -> InputView {
        match self {
            Input::Nothing => InputView::Nothing,
            Input::Quit => InputView::Quit,
            Input::Mark(l) => InputView::Mark(l@),
            Input::Dive => InputView::Dive,
        }
    }
}

/// What is selected and shown.
pub struct View {
    pub selected: usize,
    pub totals: bool,
    /// The label that is being typed.
    pub marker: Option<String>,
    pub detail: bool,
    pub tree_selected: usize,
    /// The process of the virtual machine that was last looked into, and when
    /// it started.
    pub vm_target: Option<(i32, Option<u64>)>,
    pub vm_focus: bool,
    pub vm_processes: bool,
    pub vm_selected: usize,
}

/// `View` with its label as a sequence.
pub ghost struct ViewState {
    pub selected: usize,
    pub totals: bool,
    pub marker: Option<Seq<char>>,
    pub detail: bool,
    pub tree_selected: usize,
    pub vm_target: Option<(i32, Option<u64>)>,
    pub vm_focus: bool,
    pub vm_processes: bool,
    pub vm_selected: usize,
}

impl vstd::view::View for View {
    type V = ViewState;

    open spec fn view(&self) -> ViewState {
        ViewState {
            selected: self.selected,
            totals: self.totals,
            marker: opt_text(self.marker),
            detail: self.detail,
            tree_selected: self.tree_selected,
            vm_target: self.vm_target,
            vm_focus: self.vm_focus,
            vm_processes: self.vm_processes,
            vm_selected: self.vm_selected,
        }
    }
}

/// The view at the start.
pub open spec fn at_start() -> ViewState {
    ViewState {
        selected: 0,
        totals: false,
        marker: None,
        detail: false,
        tree_selected: 0,
        vm_target: None,
        vm_focus: false,
        vm_processes: false,
        vm_selected: 0,
    }
}

impl Default for View {
    fn default() -> (r: View)
        ensures
            r@ == at_start(),
    {
        View {
            selected: 0,
            totals: false,
            marker: None,
            detail: false,
            tree_selected: 0,
            vm_target: None,
            vm_focus: false,
            vm_processes: false,
            vm_selected: 0,
        }
    }
}

/// The keys by which processes rank: energy, then CPU use. A process without
/// a reading ranks below those with one.
pub open spec fn row_keys(rows: Seq<ProcRow>) -> Seq<Key> {
    rows.map_values(|p: ProcRow| (key_of(p.energy_mw), key_of(p.cpu_percent)))
}

/// The processes of the latest sample, as listed.
pub open spec fn latest_rows(l: LedgerView) -> Seq<ProcRow> {
    match l.latest {
        Some(s) => s.procs@,
        None => seq![],
    }
}

/// The processes of the latest sample, by energy and CPU use.
pub open spec fn current_rows(l: LedgerView) -> Seq<ProcRow> {
    let rows = latest_rows(l);
    Seq::new(rows.len(), |i: int| rows[ranking(row_keys(rows))[i] as int])
}

/// The processes of the latest sample, the greatest first.
pub fn current(ledger: &Ledger) -> (r: Vec<&ProcRow>)
    ensures
        r@.len() == current_rows(ledger@).len(),
        forall|i: int| 0 <= i < r@.len() ==> *(#[trigger] r@[i]) == current_rows(ledger@)[i],
{
    let mut out: Vec<&ProcRow> = Vec::new();
    if let Some(s) = &ledger.latest {
        let rows = &s.procs;
        let mut keys: Vec<Key> = Vec::new();
        let mut i: usize = 0;
        while i < rows.len()
            invariant
                i <= rows@.len(),
                keys@ =~= row_keys(rows@).take(i as int),
            decreases rows.len() - i,
        {
            keys.push((order::key(rows[i].energy_mw), order::key(rows[i].cpu_percent)));
            i += 1;
        }
        assert(keys@ =~= row_keys(rows@));
        let ranks = order::rank(&keys);
        let mut k: usize = 0;
        while k < ranks.len()
            invariant
                k <= ranks@.len(),
                ranks@.len() == rows@.len(),
                ranks@ == ranking(row_keys(rows@)),
                rows@ == latest_rows(ledger@),
                forall|p: int| 0 <= p < ranks@.len() ==> (#[trigger] ranks@[p]) < rows@.len(),
                out@.len() == k,
                forall|i: int| 0 <= i < k ==> *(#[trigger] out@[i]) == current_rows(ledger@)[i],
            decreases ranks.len() - k,
        {
            out.push(&rows[ranks[k]]);
            k += 1;
        }
    }
    out
}

/// The bytes that a text takes in UTF-8.
pub open spec fn size(s: Seq<char>) -> nat
    decreases s.len(),
{
    if s.len() == 0 {
        0
    } else {
        size(s.drop_last()) + width(s.last())
    }
}

/// A label grows while it takes fewer bytes.
pub const LABEL_BYTES: usize = 200;

/// The next place, as far as there is one.
pub open spec fn plus(n: usize, by: usize) -> usize {
    if n + by > usize::MAX {
        usize::MAX
    } else {
        (n + by) as usize
    }
}

/// The place before, down to the first.
pub open spec fn minus(n: usize, by: usize) -> usize {
    if n < by {
        0
    } else {
        (n - by) as usize
    }
}

/// What a key does while a virtual machine is shown.
pub open spec fn pressed_in_machine(s: ViewState, code: KeyCode) -> (ViewState, InputView) {
    match code {
        KeyCode::Esc | KeyCode::Backspace => (
            ViewState { vm_focus: false, ..s },
            InputView::Nothing,
        ),
        KeyCode::Char('q') => (s, InputView::Quit),
        KeyCode::Char('d') => (s, InputView::Dive),
        KeyCode::Tab => (
            ViewState { vm_processes: !s.vm_processes, vm_selected: 0, ..s },
            InputView::Nothing,
        ),
        KeyCode::Down | KeyCode::Char('j') => (
            ViewState { vm_selected: plus(s.vm_selected, 1), ..s },
            InputView::Nothing,
        ),
        KeyCode::Up | KeyCode::Char('k') => (
            ViewState { vm_selected: minus(s.vm_selected, 1), ..s },
            InputView::Nothing,
        ),
        _ => (s, InputView::Nothing),
    }
}

/// What a key does while a label is typed.
pub open spec fn pressed_in_label(
    s: ViewState,
    label: Seq<char>,
    code: KeyCode,
) -> (ViewState, InputView) {
    match code {
        KeyCode::Enter => (
            ViewState { marker: None, ..s },
            if trimmed(label).len() > 0 {
                InputView::Mark(trimmed(label))
            } else {
                InputView::Nothing
            },
        ),
        KeyCode::Esc => (ViewState { marker: None, ..s }, InputView::Nothing),
        KeyCode::Backspace => (
            ViewState {
                marker: Some(
                    if label.len() > 0 {
                        label.drop_last()
                    } else {
                        label
                    },
                ),
                ..s
            },
            InputView::Nothing,
        ),
        KeyCode::Char(c) => if !is_control(c) && size(label) < LABEL_BYTES {
            (ViewState { marker: Some(label.push(c)), ..s }, InputView::Nothing)
        } else {
            (s, InputView::Nothing)
        },
        _ => (s, InputView::Nothing),
    }
}

/// The selected process runs a virtual machine, and processes are shown.
pub open spec fn on_machine(s: ViewState, rows: Seq<ProcRow>) -> bool {
    &&& !s.totals
    &&& s.selected < rows.len()
    &&& runs_vm(rows[s.selected as int].name@, opt_text(rows[s.selected as int].executable))
}

/// What a key does while the list is shown.
pub open spec fn pressed_in_list(
    s: ViewState,
    code: KeyCode,
    rows: Seq<ProcRow>,
) -> (ViewState, InputView) {
    match code {
        KeyCode::Char('q') | KeyCode::Esc => (s, InputView::Quit),
        KeyCode::Char('m') => (ViewState { marker: Some(seq![]), ..s }, InputView::Nothing),
        KeyCode::Char('s') => (
            ViewState { totals: !s.totals, selected: 0, tree_selected: 0, ..s },
            InputView::Nothing,
        ),
        KeyCode::Char('j') | KeyCode::Down => {
            let next = plus(s.tree_selected, 1);
            (
                ViewState {
                    tree_selected: next,
                    selected: if next < rows.len() {
                        next
                    } else {
                        s.selected
                    },
                    ..s
                },
                InputView::Nothing,
            )
        },
        KeyCode::Char('k') | KeyCode::Up => {
            let next = minus(s.tree_selected, 1);
            (
                ViewState {
                    tree_selected: next,
                    selected: if next < s.selected {
                        next
                    } else {
                        s.selected
                    },
                    ..s
                },
                InputView::Nothing,
            )
        },
        KeyCode::PageDown => (
            ViewState { tree_selected: plus(s.tree_selected, 10), ..s },
            InputView::Nothing,
        ),
        KeyCode::PageUp => (
            ViewState { tree_selected: minus(s.tree_selected, 10), ..s },
            InputView::Nothing,
        ),
        KeyCode::Char('g') => (
            ViewState { tree_selected: 0, selected: 0, ..s },
            InputView::Nothing,
        ),
        KeyCode::Char('G') => (
            ViewState { tree_selected: usize::MAX, ..s },
            InputView::Nothing,
        ),
        KeyCode::Enter | KeyCode::Char('d') => if on_machine(s, rows) {
            (
                ViewState {
                    vm_target: Some(
                        (
                            rows[s.selected as int].pid,
                            rows[s.selected as int].start_abstime,
                        ),
                    ),
                    vm_focus: true,
                    vm_selected: 0,
                    ..s
                },
                InputView::Dive,
            )
        } else {
            (ViewState { detail: !s.detail, ..s }, InputView::Nothing)
        },
        _ => (s, InputView::Nothing),
    }
}

/// What an event does to the view and asks of the program. A released key
/// does nothing, and control-C quits whatever is shown.
pub open spec fn after_event(s: ViewState, e: Event, rows: Seq<ProcRow>) -> (ViewState, InputView) {
    match e {
        Event::Other => (s, InputView::Nothing),
        Event::Key { code, released, control } => if released {
            (s, InputView::Nothing)
        } else if code == KeyCode::Char('c') && control {
            (s, InputView::Quit)
        } else if s.vm_target is Some && s.vm_focus {
            pressed_in_machine(s, code)
        } else {
            match s.marker {
                Some(label) => pressed_in_label(s, label, code),
                None => pressed_in_list(s, code, rows),
            }
        },
    }
}

fn size_of(s: &[char]) -> (r: u128)
    ensures
        r == size(s@),
{
    let n: usize = s.len();
    let mut total: u128 = 0;
    let mut i: usize = 0;
    assert(s@.take(0) =~= seq![]);
    while i < n
        invariant
            i <= n,
            n == s@.len(),
            total == size(s@.take(i as int)),
            total <= 4 * i,
        decreases n - i,
    {
        let u: u32 = s[i] as u32;
        let w: u128 = if u < 0x80 {
            1
        } else if u < 0x800 {
            2
        } else if u < 0x10000 {
            3
        } else {
            4
        };
        assert(s@.take(i + 1).drop_last() =~= s@.take(i as int));
        total = total + w;
        i += 1;
    }
    assert(s@.take(i as int) =~= s@);
    total
}

impl View {
    fn in_machine(&mut self, code: KeyCode) -> (r: Input)
        ensures
            (final(self)@, r@) == pressed_in_machine(old(self)@, code),
    {
        match code {
            KeyCode::Esc | KeyCode::Backspace => {
                self.vm_focus = false;
            },
            KeyCode::Char('q') => {
                return Input::Quit;
            },
            KeyCode::Char('d') => {
                return Input::Dive;
            },
            KeyCode::Tab => {
                self.vm_processes = !self.vm_processes;
                self.vm_selected = 0;
            },
            KeyCode::Down | KeyCode::Char('j') => {
                self.vm_selected = self.vm_selected.saturating_add(1);
            },
            KeyCode::Up | KeyCode::Char('k') => {
                self.vm_selected = self.vm_selected.saturating_sub(1);
            },
            _ => {},
        }
        Input::Nothing
    }

    fn in_label(&mut self, label: String, code: KeyCode) -> (r: Input)
        requires
            old(self)@.marker == Some(label@),
        ensures
            (final(self)@, r@) == pressed_in_label(old(self)@, label@, code),
    {
        let cs = text::chars(label.as_str());
        match code {
            KeyCode::Enter => {
                let t = text::trim(&cs);
                self.marker = None;
                if t.len() > 0 {
                    return Input::Mark(text::text(&t));
                }
            },
            KeyCode::Esc => {
                self.marker = None;
            },
            KeyCode::Backspace => {
                let n: usize = cs.len();
                if n > 0 {
                    let shorter = text::text(&text::piece(&cs, 0, n - 1));
                    assert(shorter@ =~= label@.drop_last());
                    self.marker = Some(shorter);
                }
            },
            KeyCode::Char(c) => {
                if !text::control(c) && size_of(&cs) < LABEL_BYTES as u128 {
                    let mut longer = label;
                    longer.push(c);
                    self.marker = Some(longer);
                }
            },
            _ => {},
        }
        Input::Nothing
    }

    fn in_list(&mut self, code: KeyCode, ledger: &Ledger) -> (r: Input)
        requires
            old(self)@.marker is None,
        ensures
            (final(self)@, r@) == pressed_in_list(old(self)@, code, current_rows(ledger@)),
    {
        match code {
            KeyCode::Char('q') | KeyCode::Esc => {
                return Input::Quit;
            },
            KeyCode::Char('m') => {
                self.marker = Some(String::new());
                assert(self@.marker == Some(Seq::<char>::empty()));
            },
            KeyCode::Char('s') => {
                self.totals = !self.totals;
                self.selected = 0;
                self.tree_selected = 0;
            },
            KeyCode::Char('j') | KeyCode::Down => {
                self.tree_selected = self.tree_selected.saturating_add(1);
                if self.tree_selected < current(ledger).len() {
                    self.selected = self.tree_selected;
                }
            },
            KeyCode::Char('k') | KeyCode::Up => {
                self.tree_selected = self.tree_selected.saturating_sub(1);
                if self.tree_selected < self.selected {
                    self.selected = self.tree_selected;
                }
            },
            KeyCode::PageDown => {
                self.tree_selected = self.tree_selected.saturating_add(10);
            },
            KeyCode::PageUp => {
                self.tree_selected = self.tree_selected.saturating_sub(10);
            },
            KeyCode::Char('g') => {
                self.tree_selected = 0;
                self.selected = 0;
            },
            KeyCode::Char('G') => {
                self.tree_selected = usize::MAX;
            },
            KeyCode::Enter | KeyCode::Char('d') => {
                let rows = current(ledger);
                if !self.totals && self.selected < rows.len() {
                    let p = rows[self.selected];
                    let path = match &p.executable {
                        Some(e) => Some(e.as_str()),
                        None => None,
                    };
                    if vm::is_vm(p.name.as_str(), path) {
                        self.vm_target = Some((p.pid, p.start_abstime));
                        self.vm_focus = true;
                        self.vm_selected = 0;
                        return Input::Dive;
                    }
                }
                self.detail = !self.detail;
            },
            _ => {},
        }
        Input::Nothing
    }

    /// Takes an event of the terminal and says what it asks for.
    pub fn event(&mut self, e: Event, ledger: &Ledger) -> (r: Input)
        ensures
            (final(self)@, r@) == after_event(old(self)@, e, current_rows(ledger@)),
    {
        match e {
            Event::Other => Input::Nothing,
            Event::Key { code, released, control } => {
                if released {
                    return Input::Nothing;
                }
                if control {
                    if let KeyCode::Char('c') = code {
                        return Input::Quit;
                    }
                }
                if self.vm_target.is_some() && self.vm_focus {
                    return self.in_machine(code);
                }
                let typed = text::copy_opt(&self.marker);
                match typed {
                    Some(label) => self.in_label(label, code),
                    None => self.in_list(code, ledger),
                }
            },
        }
    }
}

/// A label stays short whatever is typed: it holds at most one character past
/// the limit.
pub proof fn labels_stay_short(s: ViewState, e: Event, rows: Seq<ProcRow>)
    requires
        s.marker is Some ==> size(s.marker->0) < LABEL_BYTES + 4,
    ensures
        after_event(s, e, rows).0.marker is Some ==> size(after_event(s, e, rows).0.marker->0)
            < LABEL_BYTES + 4,
{
    if let Some(label) = s.marker {
        if let Event::Key { code, .. } = e {
            if let KeyCode::Char(c) = code {
                assert(label.push(c).drop_last() =~= label);
            }
        }
    }
    assert(size(seq![]) == 0);
}

/// No key but one that ends the program stops a recording that is being
/// labelled: while a label is typed, everything else leaves the program alone
/// or marks a change.
pub proof fn typing_does_not_quit(s: ViewState, code: KeyCode, rows: Seq<ProcRow>)
    requires
        s.marker is Some,
        !(s.vm_target is Some && s.vm_focus),
    ensures
        ({
            let (_, i) = after_event(s, Event::Key { code, released: false, control: false }, rows);
            i == InputView::Nothing || i is Mark
        }),
{
}

} // verus!
