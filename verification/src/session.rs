//! The decisions of a recording session: what is due at an instant, what an
//! interval is worth, and which virtual machine is looked into.
//!
//! Instants on the steady clock count nanoseconds since the session started;
//! times of the wall clock count microseconds.

use crate::dashboard::rolling_text;
use crate::ledger::{Ledger, LedgerView};
use crate::num::{self, digits, fixed, right, signed_fixed};
use crate::text::{self, opt_text};
use crate::types::ProcRow;
use crate::ui::Input;
use crate::vm::{self, runs_vm};
use vstd::prelude::*;
use vstd::string::*;

verus! {

/// A virtual machine: its process and when that started.
pub type Target = (i32, Option<u64>);

/// How long a finished inspection is left alone.
pub const INSPECTION_PAUSE: u64 = 15_000_000_000;

/// How often sleep assertions are read.
pub const CONTEXT_PAUSE: u64 = 30_000_000_000;

/// Where a session stands in its round. Every round takes the steps in this
/// order.
#[derive(Debug, Clone, Copy, PartialEq, Eq)]
pub enum Phase {
    Check,
    Inspect,
    Sample,
    Context,
    Show,
    Listen,
}

/// What a session has to do next.
#[derive(Debug, Clone, Copy, PartialEq, Eq)]
pub enum Action {
    /// End the session.
    Finish,
    /// Record the inspections that are complete.
    Collect,
    /// Start an inspection.
    Inspect(i32, Option<u64>),
    /// Take a sample and record it.
    Sample,
    /// Read sleep assertions and record them.
    Context,
    /// Draw the screen.
    Draw,
    /// Wait for an event of the terminal.
    Poll,
    /// Wait a little.
    Rest,
}

/// A running session.
#[derive(Debug, Clone, Copy, PartialEq, Eq)]
pub struct Session {
    pub phase: Phase,
    /// There is a screen.
    pub interactive: bool,
    /// Whole seconds between samples.
    pub interval_s: u64,
    /// Whole seconds after which the session ends.
    pub duration_s: Option<u64>,
    pub start_wall: i64,
    /// When the previous sample was taken.
    pub last_wall: i64,
    /// When the next sample is due.
    pub next: u64,
    pub context_due: u64,
    pub vm_due: u64,
    /// An inspection is under way.
    pub vm_inflight: bool,
    /// The screen is out of date.
    pub dirty: bool,
}

/// An instant some time later.
pub open spec fn later(now: u64, by: int) -> u64 {
    if now + by > u64::MAX {
        u64::MAX
    } else {
        (now + by) as u64
    }
}

/// Seconds in nanoseconds, as far as they fit.
pub open spec fn nanoseconds(s: u64) -> u64 {
    later(0, s * 1_000_000_000)
}

fn nanos(s: u64) -> (r: u64)
    ensures
        r == nanoseconds(s),
{
    let n: u128 = s as u128 * 1_000_000_000;
    if n > u64::MAX as u128 {
        u64::MAX
    } else {
        n as u64
    }
}

/// An interval is a gap: time stood still or ran back, or the machine slept or
/// was held up for more than three intervals, and for more than ten seconds.
pub open spec fn is_gap(interval_s: u64, last_wall: i64, wall: i64) -> bool {
    let dt = wall - last_wall;
    dt <= 0 || (dt > 3 * interval_s * 1_000_000 && dt > 10_000_000)
}

/// The length of an interval in nanoseconds, at least one millisecond.
pub open spec fn length_of(last_wall: i64, wall: i64) -> u64 {
    if wall - last_wall < 1_000 {
        1_000_000
    } else {
        later(0, (wall - last_wall) * 1_000)
    }
}

/// A difference of two times that fits.
pub open spec fn since(start: i64, t: i64) -> i64 {
    if t - start > i64::MAX {
        i64::MAX
    } else if t - start < i64::MIN {
        i64::MIN
    } else {
        (t - start) as i64
    }
}

/// The first process that runs a virtual machine.
pub open spec fn first_machine(rows: Seq<ProcRow>) -> Option<Target>
    decreases rows.len(),
{
    if rows.len() == 0 {
        None
    } else if runs_vm(rows[0].name@, opt_text(rows[0].executable)) {
        Some((rows[0].pid, rows[0].start_abstime))
    } else {
        first_machine(rows.skip(1))
    }
}

/// Finds the first process that runs a virtual machine.
pub fn find_machine(rows: &Vec<ProcRow>) -> (r: Option<Target>)
    ensures
        r == first_machine(rows@),
{
    let mut i: usize = 0;
    assert(rows@.skip(0) =~= rows@);
    while i < rows.len()
        invariant
            i <= rows@.len(),
            first_machine(rows@.skip(i as int)) == first_machine(rows@),
        decreases rows.len() - i,
    {
        let p = &rows[i];
        let path = match &p.executable {
            Some(e) => Some(e.as_str()),
            None => None,
        };
        proof {
            assert(rows@.skip(i as int)[0] == *p);
            assert(rows@.skip(i as int).skip(1) =~= rows@.skip(i + 1));
        }
        if vm::is_vm(p.name.as_str(), path) {
            return Some((p.pid, p.start_abstime));
        }
        i += 1;
    }
    None
}

/// The session is over: it was stopped, or its time is up.
pub open spec fn over(s: Session, now: u64, stopped: bool) -> bool {
    stopped || (s.duration_s is Some && now >= nanoseconds(s.duration_s->0))
}

/// How many steps of the round are left.
pub open spec fn steps_left(p: Phase) -> nat {
    match p {
        Phase::Check => 5,
        Phase::Inspect => 4,
        Phase::Sample => 3,
        Phase::Context => 2,
        Phase::Show => 1,
        Phase::Listen => 0,
    }
}

/// The next thing to do, and the session after it. A step with nothing due is
/// passed over; the round ends with a wait.
pub open spec fn stepped(s: Session, now: u64, stopped: bool, target: Option<Target>) -> (
    Session,
    Action,
)
    decreases steps_left(s.phase),
{
    match s.phase {
        Phase::Check => if over(s, now, stopped) {
            (s, Action::Finish)
        } else {
            (Session { phase: Phase::Inspect, ..s }, Action::Collect)
        },
        Phase::Inspect => {
            let next = Session { phase: Phase::Sample, ..s };
            match target {
                Some((pid, start)) => if !s.vm_inflight && now >= s.vm_due {
                    (Session { vm_inflight: true, ..next }, Action::Inspect(pid, start))
                } else {
                    stepped(next, now, stopped, target)
                },
                None => stepped(next, now, stopped, target),
            }
        },
        Phase::Sample => {
            let next = Session { phase: Phase::Context, ..s };
            if now >= s.next {
                (next, Action::Sample)
            } else {
                stepped(next, now, stopped, target)
            }
        },
        Phase::Context => {
            let next = Session { phase: Phase::Show, ..s };
            if now >= s.context_due {
                (next, Action::Context)
            } else {
                stepped(next, now, stopped, target)
            }
        },
        Phase::Show => {
            let next = Session { phase: Phase::Listen, ..s };
            if s.interactive && s.dirty {
                (Session { dirty: false, ..next }, Action::Draw)
            } else {
                stepped(next, now, stopped, target)
            }
        },
        Phase::Listen => (
            Session { phase: Phase::Check, ..s },
            if s.interactive {
                Action::Poll
            } else {
                Action::Rest
            },
        ),
    }
}

impl Session {
    /// A session that starts now: the first sample is due after an interval,
    /// sleep assertions and inspections at once.
    pub fn new(
        interval_s: u64,
        duration_s: Option<u64>,
        start_wall: i64,
        interactive: bool,
    ) -> (r: Session)
        ensures
            r == (Session {
                phase: Phase::Check,
                interactive,
                interval_s,
                duration_s,
                start_wall,
                last_wall: start_wall,
                next: nanoseconds(interval_s),
                context_due: 0,
                vm_due: 0,
                vm_inflight: false,
                dirty: true,
            }),
    {
        Session {
            phase: Phase::Check,
            interactive,
            interval_s,
            duration_s,
            start_wall,
            last_wall: start_wall,
            next: nanos(interval_s),
            context_due: 0,
            vm_due: 0,
            vm_inflight: false,
            dirty: true,
        }
    }

    fn is_over(&self, now: u64, stopped: bool) -> (r: bool)
        ensures
            r == over(*self, now, stopped),
    {
        if stopped {
            return true;
        }
        match self.duration_s {
            Some(d) => now >= nanos(d),
            None => false,
        }
    }

    /// What to do next, at an instant of the steady clock.
    pub fn step(&mut self, now: u64, stopped: bool, target: Option<Target>) -> (r: Action)
        ensures
            (*final(self), r) == stepped(*old(self), now, stopped, target),
    {
        reveal_with_fuel(stepped, 6);
        if let Phase::Check = self.phase {
            if self.is_over(now, stopped) {
                return Action::Finish;
            }
            self.phase = Phase::Inspect;
            return Action::Collect;
        }
        if let Phase::Inspect = self.phase {
            self.phase = Phase::Sample;
            if let Some((pid, start)) = target {
                if !self.vm_inflight && now >= self.vm_due {
                    self.vm_inflight = true;
                    return Action::Inspect(pid, start);
                }
            }
        }
        if let Phase::Sample = self.phase {
            self.phase = Phase::Context;
            if now >= self.next {
                return Action::Sample;
            }
        }
        if let Phase::Context = self.phase {
            self.phase = Phase::Show;
            if now >= self.context_due {
                return Action::Context;
            }
        }
        if let Phase::Show = self.phase {
            self.phase = Phase::Listen;
            if self.interactive && self.dirty {
                self.dirty = false;
                return Action::Draw;
            }
        }
        self.phase = Phase::Check;
        if self.interactive {
            Action::Poll
        } else {
            Action::Rest
        }
    }

    /// An inspection is complete.
    pub fn inspected(&mut self, now: u64)
        ensures
            *final(self) == (Session {
                vm_inflight: false,
                vm_due: later(now, 15_000_000_000),
                dirty: true,
                ..*old(self)
            }),
    {
        self.vm_inflight = false;
        self.vm_due = now.saturating_add(INSPECTION_PAUSE);
        self.dirty = true;
    }

    /// Whether the interval that ends at `wall` is a gap, and its length.
    pub fn interval(&self, wall: i64) -> (r: (bool, u64))
        ensures
            r.0 == is_gap(self.interval_s, self.last_wall, wall),
            r.1 == length_of(self.last_wall, wall),
    {
        let dt: i128 = wall as i128 - self.last_wall as i128;
        let gap = dt <= 0 || (dt > 3 * self.interval_s as i128 * 1_000_000 && dt > 10_000_000);
        let length: u64 = if dt < 1_000 {
            1_000_000
        } else if dt * 1_000 > u64::MAX as i128 {
            u64::MAX
        } else {
            (dt * 1_000) as u64
        };
        (gap, length)
    }

    /// Seconds of the session at a time of the wall clock, in millionths.
    pub fn elapsed(&self, wall: i64) -> (r: i64)
        ensures
            r == since(self.start_wall, wall),
    {
        let dt: i128 = wall as i128 - self.start_wall as i128;
        if dt > i64::MAX as i128 {
            i64::MAX
        } else if dt < i64::MIN as i128 {
            i64::MIN
        } else {
            dt as i64
        }
    }

    /// Looks into the first virtual machine in a sample, unless one was chosen.
    pub fn adopt(&mut self, target: Option<Target>, rows: &Vec<ProcRow>, now: u64) -> (r: Option<
        Target,
    >)
        ensures
            r == if target is Some {
                target
            } else {
                first_machine(rows@)
            },
            *final(self) == (Session {
                vm_due: if target is None && first_machine(rows@) is Some {
                    now
                } else {
                    old(self).vm_due
                },
                ..*old(self)
            }),
    {
        if target.is_some() {
            return target;
        }
        let found = find_machine(rows);
        if found.is_some() {
            self.vm_due = now;
        }
        found
    }

    /// A sample was taken at `wall`; it took `cost` nanoseconds, and the next
    /// one comes so much earlier.
    pub fn sampled(&mut self, wall: i64, now: u64, cost: u64)
        ensures
            *final(self) == (Session {
                last_wall: wall,
                next: later(
                    now,
                    if cost < nanoseconds(old(self).interval_s) {
                        nanoseconds(old(self).interval_s) - cost
                    } else {
                        0
                    },
                ),
                dirty: true,
                ..*old(self)
            }),
    {
        self.last_wall = wall;
        self.next = now.saturating_add(nanos(self.interval_s).saturating_sub(cost));
        self.dirty = true;
    }

    /// Sleep assertions were read, or could not be.
    pub fn context_taken(&mut self, now: u64)
        ensures
            *final(self) == (Session {
                context_due: later(now, 30_000_000_000),
                dirty: true,
                ..*old(self)
            }),
    {
        self.context_due = now.saturating_add(CONTEXT_PAUSE);
        self.dirty = true;
    }

    /// An event asked for something. Looking into a virtual machine makes its
    /// inspection due.
    pub fn asked(&mut self, input: &Input, now: u64)
        ensures
            *final(self) == (Session {
                vm_due: if *input is Dive {
                    now
                } else {
                    old(self).vm_due
                },
                dirty: true,
                ..*old(self)
            }),
    {
        if let Input::Dive = input {
            self.vm_due = now;
        }
        self.dirty = true;
    }
}

/// The line of a session without a screen.
pub open spec fn status_text(l: LedgerView) -> Seq<char> {
    "+"@ + right(signed_fixed(l.elapsed as int, 1_000_000, 0), 5) + "s  battery "@ + rolling_text(l)
        + " W  observed "@ + fixed(l.battery_j as nat, 360_000_000_000_000_000, 4)
        + " Wh  CPU counters "@ + digits(l.measured_procs as nat) + "/"@ + digits(
        l.total_procs as nat,
    )
}

/// What a session without a screen says after a sample.
pub fn status_line(ledger: &Ledger) -> (r: String)
    ensures
        r@ == status_text(ledger@),
{
    let mut r = text::copy("+");
    r.append(
        num::pad_left(
            num::signed_render(ledger.elapsed as i128, 1_000_000, 0).as_str(),
            5,
        ).as_str(),
    );
    r.append("s  battery ");
    r.append(num::number(ledger.rolling_w(), 100_000_000).as_str());
    r.append(" W  observed ");
    r.append(num::render(ledger.battery_j, 360_000_000_000_000_000, 4).as_str());
    r.append(" Wh  CPU counters ");
    r.append(num::decimal(ledger.measured_procs as u128).as_str());
    r.append("/");
    r.append(num::decimal(ledger.total_procs as u128).as_str());
    r
}

/// The notice of a failure to read sleep assertions.
pub fn assertions_unavailable(error: &str) -> (r: String)
    ensures
        r@ == "Sleep assertions unavailable: "@ + error@,
{
    let mut r = text::copy("Sleep assertions unavailable: ");
    r.append(error);
    r
}

/// A sample that comes late by more than three intervals and ten seconds, or
/// out of order, is a gap; one that comes in time is none.
pub proof fn sleep_is_a_gap(interval_s: u64, last_wall: i64, wall: i64)
    requires
        interval_s <= 60,
    ensures
        wall <= last_wall ==> is_gap(interval_s, last_wall, wall),
        wall - last_wall > 180_000_000 ==> is_gap(interval_s, last_wall, wall),
        0 < wall - last_wall <= interval_s * 1_000_000 ==> !is_gap(interval_s, last_wall, wall),
        0 < wall - last_wall <= 10_000_000 ==> !is_gap(interval_s, last_wall, wall),
{
}

/// A session never spins: every step gets nearer to the end of the round, and
/// the round ends with a wait.
pub proof fn every_round_ends_with_a_wait(
    s: Session,
    now: u64,
    stopped: bool,
    target: Option<Target>,
)
    ensures
        ({
            let (next, action) = stepped(s, now, stopped, target);
            match action {
                Action::Finish => next == s && s.phase is Check,
                Action::Poll | Action::Rest => next.phase is Check,
                _ => steps_left(next.phase) < steps_left(s.phase),
            }
        }),
    decreases steps_left(s.phase),
{
    reveal_with_fuel(stepped, 6);
}

/// Inspections never overlap: while one is under way, no step starts another.
pub proof fn inspections_do_not_overlap(
    s: Session,
    now: u64,
    stopped: bool,
    target: Option<Target>,
)
    requires
        s.vm_inflight,
    ensures
        !(stepped(s, now, stopped, target).1 is Inspect),
        stepped(s, now, stopped, target).0.vm_inflight,
{
    reveal_with_fuel(stepped, 6);
}

/// The screen follows the recording: where a sample is due, it is taken in the
/// round before anything is drawn.
pub proof fn samples_come_before_the_screen(
    s: Session,
    now: u64,
    stopped: bool,
    target: Option<Target>,
)
    requires
        s.phase is Inspect || s.phase is Sample,
        now >= s.next,
    ensures
        stepped(s, now, stopped, target).1 is Sample || stepped(s, now, stopped, target).1 is Inspect,
{
    reveal_with_fuel(stepped, 6);
}

} // verus!
