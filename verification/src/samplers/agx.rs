//! One GPU snapshot per interval. The last submission is a hint at who uses
//! the GPU, not a share: no power is given to that process.

use crate::samplers::procname::{self, name_by_path};
use crate::text::opt_text;
use crate::types::GpuFrame;
use vstd::prelude::*;
use vstd::string::*;

verus! {

/// What the accelerator publishes; a property that it lacks is `None`.
#[derive(Debug, PartialEq, Eq)]
pub struct GpuProperties {
    /// The process that last submitted work.
    pub last_submitter: Option<i64>,
    /// The path of that process's executable.
    pub submitter_path: Option<String>,
    pub performance: Option<GpuPerformance>,
}

/// The accelerator's statistics.
#[derive(Debug, Clone, Copy, PartialEq, Eq)]
pub struct GpuPerformance {
    /// Utilisation in millionths of a percent.
    pub device_util: Option<i64>,
    pub in_use_memory: Option<i64>,
}

/// A number that can be that of a process.
pub open spec fn process_number(n: Option<i64>) -> Option<i32> {
    match n {
        Some(p) => if 0 < p <= i32::MAX {
            Some(p as i32)
        } else {
            None
        },
        None => None,
    }
}

/// The process that a submission names, if it names one.
pub fn submitter(last: Option<i64>) -> (r: Option<i32>)
    ensures
        r == process_number(last),
{
    match last {
        Some(p) => if 0 < p && p <= i32::MAX as i64 {
            Some(p as i32)
        } else {
            None
        },
        None => None,
    }
}

/// The same bits without a sign.
pub open spec fn unsigned(v: i64) -> u64 {
    if v < 0 {
        (v + 0x1_0000_0000_0000_0000) as u64
    } else {
        v as u64
    }
}

/// Nothing was seen.
pub open spec fn is_blank(f: GpuFrame) -> bool {
    &&& f.top_submitter_pid is None
    &&& f.top_submitter_name is None
    &&& f.top_submitter_uid is None
    &&& f.top_submitter_hits == 0
    &&& f.total_samples == 0
    &&& f.device_util_pct is None
    &&& f.in_use_mem_bytes is None
    &&& f.users@.len() == 0
}

/// `after` is `before` with what one poll saw.
pub open spec fn polled(before: GpuFrame, after: GpuFrame, properties: Option<GpuProperties>) -> bool {
    match properties {
        Some(p) => {
            &&& after.total_samples == 1
            &&& match process_number(p.last_submitter) {
                Some(pid) => {
                    &&& after.top_submitter_pid == Some(pid)
                    &&& opt_text(after.top_submitter_name) == Some(
                        name_by_path(pid, opt_text(p.submitter_path)),
                    )
                    &&& after.top_submitter_hits == 1
                },
                None => {
                    &&& after.top_submitter_pid == before.top_submitter_pid
                    &&& after.top_submitter_name == before.top_submitter_name
                    &&& after.top_submitter_hits == before.top_submitter_hits
                },
            }
            &&& match p.performance {
                Some(perf) => {
                    &&& after.device_util_pct == perf.device_util
                    &&& after.in_use_mem_bytes == match perf.in_use_memory {
                        Some(v) => Some(unsigned(v)),
                        None => None,
                    }
                },
                None => {
                    &&& after.device_util_pct == before.device_util_pct
                    &&& after.in_use_mem_bytes == before.in_use_mem_bytes
                },
            }
            &&& after.top_submitter_uid == before.top_submitter_uid
            &&& after.users == before.users
        },
        None => after == before,
    }
}

fn blank_frame() -> (r: GpuFrame)
    ensures
        is_blank(r),
{
    GpuFrame {
        top_submitter_pid: None,
        top_submitter_name: None,
        top_submitter_uid: None,
        top_submitter_hits: 0,
        total_samples: 0,
        device_util_pct: None,
        in_use_mem_bytes: None,
        users: Vec::new(),
    }
}

/// Collects one snapshot per interval.
pub struct AgxSampler {
    pub frame: GpuFrame,
}

impl AgxSampler {
    pub fn new() -> (r: AgxSampler)
        ensures
            is_blank(r.frame),
    {
        AgxSampler { frame: blank_frame() }
    }

    /// Starts an interval.
    pub fn begin(&mut self)
        ensures
            is_blank(final(self).frame),
    {
        self.frame = blank_frame();
    }

    /// Takes what the accelerator publishes, if there is one.
    pub fn poll(&mut self, properties: &Option<GpuProperties>)
        ensures
            polled(old(self).frame, final(self).frame, *properties),
    {
        if let Some(p) = properties {
            self.frame.total_samples = 1;
            if let Some(pid) = submitter(p.last_submitter) {
                let name = match &p.submitter_path {
                    Some(path) => procname::resolve_name(pid, Some(path.as_str())),
                    None => procname::resolve_name(pid, None),
                };
                self.frame.top_submitter_pid = Some(pid);
                self.frame.top_submitter_name = Some(name);
                self.frame.top_submitter_hits = 1;
            }
            if let Some(perf) = p.performance {
                self.frame.device_util_pct = perf.device_util;
                self.frame.in_use_mem_bytes = match perf.in_use_memory {
                    Some(v) => Some(
                        if v < 0 {
                            (v as i128 + 0x1_0000_0000_0000_0000) as u64
                        } else {
                            v as u64
                        },
                    ),
                    None => None,
                };
            }
        }
    }

    /// Ends an interval and hands out its snapshot.
    pub fn finish(&mut self) -> (r: GpuFrame)
        ensures
            r == old(self).frame,
            is_blank(final(self).frame),
    {
        let mut taken = blank_frame();
        std::mem::swap(&mut taken, &mut self.frame);
        taken
    }
}

} // verus!
