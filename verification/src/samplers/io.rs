//! Disk and network throughput from cumulative counters.
//!
//! Disk counters are those of every block storage driver. Network counters are
//! those of every interface but the loopback, so local traffic does not count.

use crate::num::{self, rate};
use crate::sampler::Sampler;
use crate::types::IoFrame;
use vstd::prelude::*;

verus! {

/// Cumulative totals at one instant.
#[derive(Debug, Clone, Copy, PartialEq, Eq)]
pub struct Counters {
    pub disk_read: u64,
    pub disk_write: u64,
    pub disk_ops: u64,
    pub net_rx: u64,
    pub net_tx: u64,
}

/// The counters of one storage driver; one that it lacks is `None`.
#[derive(Debug, Clone, Copy, PartialEq, Eq)]
pub struct DiskStatistics {
    pub bytes_read: Option<i64>,
    pub bytes_written: Option<i64>,
    pub reads: Option<i64>,
    pub writes: Option<i64>,
}

/// A counter's value: nothing if it is missing or negative.
pub open spec fn count_of(v: Option<i64>) -> u64 {
    match v {
        Some(n) => if n > 0 {
            n as u64
        } else {
            0
        },
        None => 0,
    }
}

/// The sum of two counters, which wrap around.
pub open spec fn sum(a: u64, b: u64) -> u64 {
    if a + b > u64::MAX {
        (a + b - 0x1_0000_0000_0000_0000) as u64
    } else {
        (a + b) as u64
    }
}

/// The totals with those of one driver.
pub open spec fn with_disk(c: Counters, d: DiskStatistics) -> Counters {
    Counters {
        disk_read: sum(c.disk_read, count_of(d.bytes_read)),
        disk_write: sum(c.disk_write, count_of(d.bytes_written)),
        disk_ops: sum(sum(c.disk_ops, count_of(d.reads)), count_of(d.writes)),
        ..c
    }
}

/// The totals with those of all drivers.
pub open spec fn with_disks(c: Counters, ds: Seq<DiskStatistics>) -> Counters
    decreases ds.len(),
{
    if ds.len() == 0 {
        c
    } else {
        with_disk(with_disks(c, ds.drop_last()), ds.last())
    }
}

fn count(v: Option<i64>) -> (r: u64)
    ensures
        r == count_of(v),
{
    match v {
        Some(n) => if n > 0 {
            n as u64
        } else {
            0
        },
        None => 0,
    }
}

/// Adds the counters of every storage driver.
pub fn read_disk(c: &mut Counters, disks: &Vec<DiskStatistics>)
    ensures
        *final(c) == with_disks(*old(c), disks@),
{
    let mut i: usize = 0;
    assert(disks@.take(0) =~= seq![]);
    while i < disks.len()
        invariant
            i <= disks@.len(),
            *c == with_disks(*old(c), disks@.take(i as int)),
        decreases disks.len() - i,
    {
        let d = disks[i];
        c.disk_read = c.disk_read.wrapping_add(count(d.bytes_read));
        c.disk_write = c.disk_write.wrapping_add(count(d.bytes_written));
        c.disk_ops = c.disk_ops.wrapping_add(count(d.reads)).wrapping_add(count(d.writes));
        assert(disks@.take(i + 1).drop_last() =~= disks@.take(i as int));
        i += 1;
    }
    assert(disks@.take(i as int) =~= disks@);
}

/// The size of an interface message, and where its fields stand: the type of
/// the message, the type of the interface, bytes received and bytes sent. Its
/// length is the first field.
pub const MESSAGE_SIZE: usize = 160;

pub const OFF_TYPE: usize = 3;

pub const OFF_INTERFACE: usize = 32;

pub const OFF_IBYTES: usize = 96;

pub const OFF_OBYTES: usize = 104;

/// The type of a message that describes an interface.
pub const INTERFACE_INFO: u8 = 0x12;

/// The type of the loopback interface.
pub const LOOPBACK: u8 = 0x18;

/// Bytes as a number, the lowest first.
pub open spec fn little(bytes: Seq<u8>) -> nat
    decreases bytes.len(),
{
    if bytes.len() == 0 {
        0
    } else {
        bytes[0] as nat + 256 * little(bytes.skip(1))
    }
}

/// Eight bytes as a number, the lowest first.
pub open spec fn counter_at(buf: Seq<u8>, off: int) -> u64 {
    little(buf.subrange(off, off + 8)) as u64
}

/// The length of the message at `off`.
pub open spec fn length_at(buf: Seq<u8>, off: int) -> int {
    buf[off] + 256 * buf[off + 1]
}

/// The message describes an interface whose traffic counts.
pub open spec fn counts(buf: Seq<u8>, off: int) -> bool {
    buf[off + OFF_TYPE] == INTERFACE_INFO && buf[off + OFF_INTERFACE] != LOOPBACK
}

/// The totals with those of one message.
pub open spec fn with_message(c: Counters, buf: Seq<u8>, off: int) -> Counters {
    if counts(buf, off) {
        Counters {
            net_rx: sum(c.net_rx, counter_at(buf, off + OFF_IBYTES)),
            net_tx: sum(c.net_tx, counter_at(buf, off + OFF_OBYTES)),
            ..c
        }
    } else {
        c
    }
}

/// The totals with those of the messages from `off` on: each says how long it
/// is, and one without a length ends the list.
pub open spec fn with_messages(c: Counters, buf: Seq<u8>, off: int) -> Counters
    decreases buf.len() + 0x1_0000 - off,
{
    if off < 0 || off + MESSAGE_SIZE > buf.len() || length_at(buf, off) <= 0 {
        c
    } else {
        with_messages(with_message(c, buf, off), buf, off + length_at(buf, off))
    }
}

pub proof fn little_is_bounded(bytes: Seq<u8>)
    requires
        bytes.len() == 8,
    ensures
        little(bytes) == bytes[0] + bytes[1] * 0x100 + bytes[2] * 0x1_0000 + bytes[3]
            * 0x100_0000 + bytes[4] * 0x1_0000_0000 + bytes[5] * 0x100_0000_0000 + bytes[6]
            * 0x1_0000_0000_0000 + bytes[7] * 0x100_0000_0000_0000,
        little(bytes) <= u64::MAX,
{
    reveal_with_fuel(little, 9);
    let a = bytes.skip(1);
    let b = a.skip(1);
    let c = b.skip(1);
    let d = c.skip(1);
    let e = d.skip(1);
    let f = e.skip(1);
    let g = f.skip(1);
    assert(g.skip(1).len() == 0);
    assert(a[0] == bytes[1] && b[0] == bytes[2] && c[0] == bytes[3] && d[0] == bytes[4] && e[0]
        == bytes[5] && f[0] == bytes[6] && g[0] == bytes[7]);
}

fn read_u64(buf: &[u8], off: usize) -> (r: u64)
    requires
        off + 8 <= buf@.len(),
    ensures
        r == counter_at(buf@, off as int),
{
    proof {
        little_is_bounded(buf@.subrange(off as int, off + 8));
    }
    buf[off] as u64 + buf[off + 1] as u64 * 0x100 + buf[off + 2] as u64 * 0x1_0000 + buf[off
        + 3] as u64 * 0x100_0000 + buf[off + 4] as u64 * 0x1_0000_0000 + buf[off + 5] as u64
        * 0x100_0000_0000 + buf[off + 6] as u64 * 0x1_0000_0000_0000 + buf[off + 7] as u64
        * 0x100_0000_0000_0000
}

/// Adds the traffic of every interface in the kernel's list.
pub fn read_net(c: &mut Counters, buf: &[u8])
    ensures
        *final(c) == with_messages(*old(c), buf@, 0),
{
    let n: usize = buf.len();
    let mut off: usize = 0;
    while MESSAGE_SIZE <= n - off
        invariant
            off <= n,
            n == buf@.len(),
            with_messages(*c, buf@, off as int) == with_messages(*old(c), buf@, 0),
        decreases n - off,
    {
        let length: usize = buf[off] as usize + 256 * buf[off + 1] as usize;
        if length == 0 {
            return;
        }
        let ghost start = *c;
        if buf[off + OFF_TYPE] == INTERFACE_INFO && buf[off + OFF_INTERFACE] != LOOPBACK {
            c.net_rx = c.net_rx.wrapping_add(read_u64(buf, off + OFF_IBYTES));
            c.net_tx = c.net_tx.wrapping_add(read_u64(buf, off + OFF_OBYTES));
        }
        assert(*c == with_message(start, buf@, off as int));
        if length > n - off {
            assert(with_messages(*c, buf@, off + length) == *c);
            return;
        }
        off += length;
    }
}

/// Growth of a counter that should not fall.
pub open spec fn grown(from: u64, to: u64) -> int {
    if to > from {
        to - from
    } else {
        0
    }
}

/// The throughput between two instants.
pub open spec fn throughput(a: Counters, b: Counters, dt_ns: u64) -> IoFrame {
    let dt = if dt_ns == 0 {
        1
    } else {
        dt_ns as int
    };
    let scale = 1_000_000_000_000_000;
    IoFrame {
        disk_read_bps: rate(grown(a.disk_read, b.disk_read), scale, dt),
        disk_write_bps: rate(grown(a.disk_write, b.disk_write), scale, dt),
        disk_iops: rate(grown(a.disk_ops, b.disk_ops), scale, dt),
        net_rx_bps: rate(grown(a.net_rx, b.net_rx), scale, dt),
        net_tx_bps: rate(grown(a.net_tx, b.net_tx), scale, dt),
    }
}

fn per_second(from: u64, to: u64, dt: u128) -> (r: u64)
    requires
        dt > 0,
    ensures
        r == rate(grown(from, to), 1_000_000_000_000_000, dt as int),
{
    let d: u64 = if to > from {
        to - from
    } else {
        0
    };
    num::rate_of(d as u128, 1_000_000_000_000_000, dt)
}

/// Differences the totals of successive ticks.
pub struct IoSampler {
    pub prev: Option<Counters>,
}

impl IoSampler {
    pub fn new() -> (r: IoSampler)
        ensures
            r.prev is None,
    {
        IoSampler { prev: None }
    }

    /// The throughput since the tick before. The first tick takes the baseline
    /// and gives nothing.
    pub fn tick(&mut self, dt_ns: u64, current: Counters) -> (r: Option<IoFrame>)
        ensures
            final(self).prev == Some(current),
            r == match old(self).prev {
                Some(prev) => Some(throughput(prev, current, dt_ns)),
                None => None,
            },
    {
        let before = self.prev;
        self.prev = Some(current);
        match before {
            Some(prev) => {
                let dt: u128 = if dt_ns == 0 {
                    1
                } else {
                    dt_ns as u128
                };
                Some(
                    IoFrame {
                        disk_read_bps: per_second(prev.disk_read, current.disk_read, dt),
                        disk_write_bps: per_second(prev.disk_write, current.disk_write, dt),
                        disk_iops: per_second(prev.disk_ops, current.disk_ops, dt),
                        net_rx_bps: per_second(prev.net_rx, current.net_rx, dt),
                        net_tx_bps: per_second(prev.net_tx, current.net_tx, dt),
                    },
                )
            },
            None => None,
        }
    }
}

impl Sampler for IoSampler {
    fn name(&self) -> (r: &'static str)
        ensures
            r@ == "IOBlockStorageDriver + NET_RT_IFLIST2"@,
    {
        "IOBlockStorageDriver + NET_RT_IFLIST2"
    }
}

/// The totals of one instant, from the drivers' counters and the kernel's
/// interface list.
pub fn read_counters(disks: &Vec<DiskStatistics>, interfaces: &[u8]) -> (r: Counters)
    ensures
        r == with_messages(
            with_disks(
                Counters { disk_read: 0, disk_write: 0, disk_ops: 0, net_rx: 0, net_tx: 0 },
                disks@,
            ),
            interfaces@,
            0,
        ),
{
    let mut c = Counters { disk_read: 0, disk_write: 0, disk_ops: 0, net_rx: 0, net_tx: 0 };
    read_disk(&mut c, disks);
    read_net(&mut c, interfaces);
    c
}

/// Loopback traffic does not count: a message about the loopback interface
/// leaves the totals as they are.
pub proof fn loopback_does_not_count(c: Counters, buf: Seq<u8>, off: int)
    requires
        0 <= off,
        off + MESSAGE_SIZE <= buf.len(),
        buf[off + OFF_INTERFACE] == LOOPBACK,
    ensures
        with_message(c, buf, off) == c,
{
}

} // verus!
