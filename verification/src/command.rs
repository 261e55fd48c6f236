//! The decisions of running an outside program within a time limit.

use crate::text;
use vstd::prelude::*;
use vstd::string::*;

verus! {

/// What to do about a program that was started.
#[derive(Debug, Clone, Copy, PartialEq, Eq)]
pub enum Wait {
    /// It has exited: collect its output.
    Exited,
    /// It has not, and its time is up or the recording stops: end it.
    GiveUp,
    /// Look again a little later.
    Again,
}

/// What to do about a program that was started `elapsed` ago.
pub fn waiting(exited: bool, elapsed: u64, timeout: u64, stopped: bool) -> (r: Wait)
    ensures
        exited ==> r is Exited,
        !exited && (elapsed >= timeout || stopped) ==> r is GiveUp,
        !exited && elapsed < timeout && !stopped ==> r is Again,
{
    if exited {
        Wait::Exited
    } else if elapsed >= timeout || stopped {
        Wait::GiveUp
    } else {
        Wait::Again
    }
}

/// How long output may still take. A descendant may hold a pipe open after the
/// program has exited, so output has the same deadline as the program.
pub fn remaining(elapsed: u64, timeout: u64) -> (r: u64)
    ensures
        elapsed <= timeout ==> r == timeout - elapsed,
        elapsed > timeout ==> r == 0,
{
    timeout.saturating_sub(elapsed)
}

/// What came through a pipe: its text or an error, or nothing in time.
pub type Collected = Option<Result<String, String>>;

/// Why a program gave no output.
#[derive(Debug, PartialEq, Eq)]
pub enum Failure {
    /// Its time was up.
    TimedOut(String),
    /// It or one of its pipes failed.
    Failed(String),
}

/// `Failure` with its message as a sequence.
pub ghost enum FailureView {
    TimedOut(Seq<char>),
    Failed(Seq<char>),
}

impl View for Failure {
    type V = FailureView;

    open spec fn view(&self) -> FailureView {
        match self {
            Failure::TimedOut(e) => FailureView::TimedOut(e@),
            Failure::Failed(e) => FailureView::Failed(e@),
        }
    }
}

/// What a program comes to.
pub open spec fn result_of(
    success: bool,
    status: Seq<char>,
    stdout: Collected,
    stderr: Collected,
) -> Result<Seq<char>, FailureView> {
    match stdout {
        None => Err(FailureView::TimedOut("command output timed out"@)),
        Some(Err(e)) => Err(FailureView::Failed(e@)),
        Some(Ok(out)) => match stderr {
            None => Err(FailureView::TimedOut("command errors timed out"@)),
            Some(Err(e)) => Err(FailureView::Failed(e@)),
            Some(Ok(err)) => if success {
                Ok(out@)
            } else {
                Err(FailureView::Failed(status + ": "@ + err@ + out@))
            },
        },
    }
}

/// How a text or a failure reads.
pub open spec fn result_view(r: Result<String, Failure>) -> Result<Seq<char>, FailureView> {
    match r {
        Ok(s) => Ok(s@),
        Err(e) => Err(e@),
    }
}

/// The output of a program that has exited, or why there is none.
pub fn outcome(success: bool, status: &str, stdout: Collected, stderr: Collected) -> (r: Result<
    String,
    Failure,
>)
    ensures
        result_view(r) == result_of(success, status@, stdout, stderr),
{
    match stdout {
        None => Err(Failure::TimedOut(text::copy("command output timed out"))),
        Some(Err(e)) => Err(Failure::Failed(e)),
        Some(Ok(out)) => match stderr {
            None => Err(Failure::TimedOut(text::copy("command errors timed out"))),
            Some(Err(e)) => Err(Failure::Failed(e)),
            Some(Ok(err)) => {
                if success {
                    Ok(out)
                } else {
                    let mut m = text::copy(status);
                    m.append(": ");
                    m.append(err.as_str());
                    m.append(out.as_str());
                    Err(Failure::Failed(m))
                }
            },
        },
    }
}

/// The error of a program that was ended.
pub fn gave_up() -> (r: Failure)
    ensures
        r@ == FailureView::TimedOut("command timed out or recording stopped"@),
{
    Failure::TimedOut(text::copy("command timed out or recording stopped"))
}

} // verus!
