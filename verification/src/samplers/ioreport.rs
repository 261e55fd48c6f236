//! SoC power from the energy and state channels of the IOReport framework.
//!
//! Channels are matched by group and name, never by place, because their
//! layout differs from chip to chip; a missing channel is `None`.

use crate::num::{self, capped_rate, rate};
use crate::percent::{all_digits, digits_only};
use crate::sampler::Sampler;
use crate::text::{self, begins, ends, first_from, holds, lower, parts, trimmed, upper};
use crate::types::SocPower;
use vstd::prelude::*;
use vstd::string::*;

verus! {

/// One channel of the difference between two samples.
#[derive(Debug, PartialEq, Eq)]
pub struct ChannelItem {
    pub group: String,
    pub channel: String,
    /// The unit label as published, possibly padded.
    pub unit: String,
    /// The integer value of a simple channel.
    pub value: i64,
    /// The states of a state channel with their residencies, slowest first.
    pub states: Vec<(String, i64)>,
}

/// An interval of at least one nanosecond.
pub open spec fn at_least_one(dt_ns: u64) -> int {
    if dt_ns == 0 {
        1
    } else {
        dt_ns as int
    }
}

/// What one unit of a channel over one nanosecond counts, in microwatts.
pub open spec fn unit_scale(unit: Seq<char>) -> Option<u64> {
    if unit == "nJ"@ {
        Some(1_000_000)
    } else if unit == "uJ"@ {
        Some(1_000_000_000)
    } else if unit == "mJ"@ {
        Some(1_000_000_000_000)
    } else if unit == "J"@ {
        Some(1_000_000_000_000_000)
    } else {
        None
    }
}

/// The mean power of an energy channel over an interval.
pub open spec fn watts_of(value: i64, unit: Seq<char>, dt_ns: u64) -> Option<u64> {
    if value < 0 {
        None
    } else {
        match unit_scale(unit) {
            Some(scale) => Some(rate(value as int, scale as int, at_least_one(dt_ns))),
            None => None,
        }
    }
}

fn scale(unit: &[char]) -> (r: Option<u64>)
    ensures
        r == unit_scale(unit@),
        r is Some ==> r->0 <= 1_000_000_000_000_000,
{
    if text::same(unit, "nJ") {
        Some(1_000_000)
    } else if text::same(unit, "uJ") {
        Some(1_000_000_000)
    } else if text::same(unit, "mJ") {
        Some(1_000_000_000_000)
    } else if text::same(unit, "J") {
        Some(1_000_000_000_000_000)
    } else {
        None
    }
}

/// The power of an energy channel, in millionths of a watt.
pub fn energy_to_watts(value: i64, unit: &[char], dt_ns: u64) -> (r: Option<u64>)
    ensures
        r == watts_of(value, unit@, dt_ns),
{
    if value < 0 {
        return None;
    }
    let dt: u128 = if dt_ns == 0 {
        1
    } else {
        dt_ns as u128
    };
    match scale(unit) {
        Some(s) => Some(num::rate_of(value as u128, s, dt)),
        None => None,
    }
}

/// The name, in capitals, is that of a part of the CPU: a core, a cluster or
/// what else belongs to a cluster.
pub open spec fn in_cpu(n: Seq<char>) -> bool {
    begins(n, "MCPU"@) || begins(n, "PCPU"@) || begins(n, "ECPU"@) || begins(n, "PACC"@) || begins(
        n,
        "EACC"@,
    ) || begins(n, "MCPM"@) || begins(n, "PCPM"@)
}

/// The channel's energy is already counted inside a coarser one, as its own
/// name and the aggregates of the chip tell.
pub open spec fn part_of_another(name: Seq<char>, cpu_aggregate: bool, gpu_aggregate: bool) -> bool {
    let n = upper(name);
    ||| holds(n, "DTL"@)
    ||| ends(n, "_SRAM"@)
    ||| cpu_aggregate && n != "CPU ENERGY"@ && in_cpu(n)
    ||| gpu_aggregate && n == "GPU"@
}

fn is_in_cpu(n: &[char]) -> (r: bool)
    ensures
        r == in_cpu(n@),
{
    text::starts_with(n, "MCPU") || text::starts_with(n, "PCPU") || text::starts_with(n, "ECPU")
        || text::starts_with(n, "PACC") || text::starts_with(n, "EACC") || text::starts_with(
        n,
        "MCPM",
    ) || text::starts_with(n, "PCPM")
}

/// Whether a channel's energy is already counted inside a coarser one: details
/// of a core's steps and memory rails always, cores and clusters where the chip
/// publishes its whole CPU, the coarse GPU channel where there is a fine one.
pub fn is_subcomponent(name: &str, cpu_aggregate: bool, gpu_aggregate: bool) -> (r: bool)
    ensures
        r == part_of_another(name@, cpu_aggregate, gpu_aggregate),
{
    let n = text::to_upper(&text::chars(name));
    if text::contains(&n, "DTL") {
        return true;
    }
    if text::ends_with(&n, "_SRAM") {
        return true;
    }
    if cpu_aggregate && !text::same(&n, "CPU ENERGY") && is_in_cpu(&n) {
        return true;
    }
    gpu_aggregate && text::same(&n, "GPU")
}

/// A block of the chip that has a total of its own.
pub enum Block {
    Display,
    Ane,
    Gpu,
    Dram,
    Cpu,
    Other,
}

/// The block that a channel belongs to.
pub open spec fn block_of(channel: Seq<char>) -> Block {
    let c = lower(channel);
    if holds(c, "disp"@) {
        Block::Display
    } else if holds(c, "ane"@) {
        Block::Ane
    } else if holds(c, "gpu"@) {
        Block::Gpu
    } else if holds(c, "dram"@) || holds(c, "dcs"@) || holds(c, "amcc"@) {
        Block::Dram
    } else if holds(c, "cpu"@) {
        Block::Cpu
    } else {
        Block::Other
    }
}

/// A block's total with more power in it.
pub open spec fn with_power(total: Option<u64>, w: u64) -> Option<u64> {
    Some(
        capped_rate(
            (match total {
                Some(t) => t,
                None => 0,
            }) + w,
        ),
    )
}

/// The power of the chip with one more channel in its block.
pub open spec fn with_block(soc: SocPower, channel: Seq<char>, w: u64) -> SocPower {
    match block_of(channel) {
        Block::Display => SocPower { display_w: with_power(soc.display_w, w), ..soc },
        Block::Ane => SocPower { ane_w: with_power(soc.ane_w, w), ..soc },
        Block::Gpu => SocPower { gpu_w: with_power(soc.gpu_w, w), ..soc },
        Block::Dram => SocPower { dram_w: with_power(soc.dram_w, w), ..soc },
        Block::Cpu => SocPower { cpu_w: with_power(soc.cpu_w, w), ..soc },
        Block::Other => soc,
    }
}

/// The power of the chip with one more channel in its block and in the total.
pub open spec fn with_channel(soc: SocPower, channel: Seq<char>, w: u64) -> SocPower {
    let soc = SocPower { total_w: capped_rate(soc.total_w + w), ..soc };
    with_block(soc, channel, w)
}

fn block(channel: &str) -> (r: Block)
    ensures
        r == block_of(channel@),
{
    let c = text::to_lower(&text::chars(channel));
    if text::contains(&c, "disp") {
        Block::Display
    } else if text::contains(&c, "ane") {
        Block::Ane
    } else if text::contains(&c, "gpu") {
        Block::Gpu
    } else if text::contains(&c, "dram") || text::contains(&c, "dcs") || text::contains(
        &c,
        "amcc",
    ) {
        Block::Dram
    } else if text::contains(&c, "cpu") {
        Block::Cpu
    } else {
        Block::Other
    }
}

fn sum(total: Option<u64>, w: u64) -> (r: Option<u64>)
    ensures
        r == with_power(total, w),
{
    let t: u64 = match total {
        Some(t) => t,
        None => 0,
    };
    Some(t.saturating_add(w))
}

/// Adds one channel to its block, and gives back the power that belongs to no
/// named block; the total is the caller's.
pub fn classify_energy(channel: &str, w: u64, soc: &mut SocPower) -> (r: u64)
    ensures
        *final(soc) == with_block(*old(soc), channel@, w),
        r == if block_of(channel@) is Other {
            w
        } else {
            0
        },
{
    match block(channel) {
        Block::Display => {
            soc.display_w = sum(soc.display_w, w);
        },
        Block::Ane => {
            soc.ane_w = sum(soc.ane_w, w);
        },
        Block::Gpu => {
            soc.gpu_w = sum(soc.gpu_w, w);
        },
        Block::Dram => {
            soc.dram_w = sum(soc.dram_w, w);
        },
        Block::Cpu => {
            soc.cpu_w = sum(soc.cpu_w, w);
        },
        Block::Other => {
            return w;
        },
    }
    0
}

/// The names and powers of some channels.
pub open spec fn named(v: Seq<(String, u64)>) -> Seq<(Seq<char>, u64)> {
    v.map_values(|c: (String, u64)| (c.0@, c.1))
}

/// A channel of that name is among them.
pub open spec fn publishes(channels: Seq<(Seq<char>, u64)>, name: Seq<char>) -> bool {
    exists|i: int| 0 <= i < channels.len() && (#[trigger] channels[i]).0 == name
}

/// The cluster of a core, in capitals: a core has the name of its cluster, an
/// underscore and digits.
pub open spec fn cluster_of(name: Seq<char>) -> Option<Seq<char>> {
    match parts(upper(name), "_"@) {
        Some((cluster, core)) => if in_cpu(cluster) && core.len() > 0 && all_digits(core) {
            Some(cluster)
        } else {
            None
        },
        None => None,
    }
}

/// A channel of that name, in capitals, is among them.
pub open spec fn publishes_upper(channels: Seq<(Seq<char>, u64)>, name: Seq<char>) -> bool {
    exists|i: int| 0 <= i < channels.len() && upper((#[trigger] channels[i]).0) == name
}

/// The channel is a core whose cluster is among the channels.
pub open spec fn core_of_published(channels: Seq<(Seq<char>, u64)>, name: Seq<char>) -> bool {
    cluster_of(name) matches Some(cluster) && publishes_upper(channels, cluster)
}

/// The channel's energy is already counted inside another of the channels.
pub open spec fn is_part(channels: Seq<(Seq<char>, u64)>, name: Seq<char>) -> bool {
    part_of_another(
        name,
        publishes(channels, "CPU Energy"@),
        publishes(channels, "GPU Energy"@),
    ) || core_of_published(channels, name)
}

/// The power of some channels of a chip, without the parts of others among all
/// its channels.
pub open spec fn counted(
    channels: Seq<(Seq<char>, u64)>,
    all: Seq<(Seq<char>, u64)>,
    start: SocPower,
) -> SocPower
    decreases channels.len(),
{
    if channels.len() == 0 {
        start
    } else {
        let soc = counted(channels.drop_last(), all, start);
        let (name, w) = channels.last();
        if is_part(all, name) {
            soc
        } else {
            with_channel(soc, name, w)
        }
    }
}

/// The power of a chip from all its channels.
pub open spec fn power_of(channels: Seq<(Seq<char>, u64)>, start: SocPower) -> SocPower {
    counted(channels, channels, start)
}

fn core_is_published(channels: &Vec<(String, u64)>, name: &str) -> (r: bool)
    ensures
        r == core_of_published(named(channels@), name@),
{
    let n = text::to_upper(&text::chars(name));
    let (cluster, core) = match text::split_once(&n, "_") {
        Some(p) => p,
        None => {
            return false;
        },
    };
    if !is_in_cpu(&cluster) || core.len() == 0 || !digits_only(&core) {
        return false;
    }
    let mut i: usize = 0;
    while i < channels.len()
        invariant
            i <= channels@.len(),
            cluster_of(name@) == Some(cluster@),
            forall|k: int| 0 <= k < i ==> upper((#[trigger] named(channels@)[k]).0) != cluster@,
        decreases channels.len() - i,
    {
        let other = text::to_upper(&text::chars(channels[i].0.as_str()));
        if text::alike(&other, &cluster) {
            assert(upper(named(channels@)[i as int].0) == cluster@);
            return true;
        }
        i += 1;
    }
    false
}

fn published(channels: &Vec<(String, u64)>, name: &str) -> (r: bool)
    ensures
        r == publishes(named(channels@), name@),
{
    let wanted = text::chars(name);
    let mut i: usize = 0;
    while i < channels.len()
        invariant
            i <= channels@.len(),
            wanted@ == name@,
            forall|k: int| 0 <= k < i ==> (#[trigger] named(channels@)[k]).0 != name@,
        decreases channels.len() - i,
    {
        if text::same(&wanted, channels[i].0.as_str()) {
            assert(named(channels@)[i as int].0 == name@);
            return true;
        }
        i += 1;
    }
    false
}

/// Sums the energy channels, counting each joule once. The group covers the
/// same energy at several granularities: where a chip publishes an aggregate,
/// what is part of it is dropped. Without a channel for the whole CPU its
/// clusters are summed, and the cores of a cluster that has no channel.
pub fn accumulate_energy(channels: &Vec<(String, u64)>, soc: &mut SocPower)
    ensures
        *final(soc) == power_of(named(channels@), *old(soc)),
{
    let cpu_aggregate = published(channels, "CPU Energy");
    let gpu_aggregate = published(channels, "GPU Energy");
    let ghost all = named(channels@);
    let mut i: usize = 0;
    assert(all.take(0) =~= seq![]);
    while i < channels.len()
        invariant
            i <= channels@.len(),
            all == named(channels@),
            cpu_aggregate == publishes(all, "CPU Energy"@),
            gpu_aggregate == publishes(all, "GPU Energy"@),
            *soc == counted(all.take(i as int), all, *old(soc)),
        decreases channels.len() - i,
    {
        proof {
            assert(all.take(i + 1).drop_last() =~= all.take(i as int));
            assert(all.take(i + 1).last() == (channels@[i as int].0@, channels@[i as int].1));
        }
        let name = channels[i].0.as_str();
        if !is_subcomponent(name, cpu_aggregate, gpu_aggregate) && !core_is_published(
            channels,
            name,
        ) {
            let w: u64 = channels[i].1;
            soc.total_w = soc.total_w.saturating_add(w);
            classify_energy(name, w, soc);
        }
        i += 1;
    }
    assert(all.take(i as int) =~= all);
}

proof fn counted_without_a_part(
    channels: Seq<(Seq<char>, u64)>,
    i: int,
    all: Seq<(Seq<char>, u64)>,
    start: SocPower,
)
    requires
        0 <= i < channels.len(),
        is_part(all, channels[i].0),
    ensures
        counted(channels, all, start) == counted(channels.remove(i), all, start),
    decreases channels.len(),
{
    if i == channels.len() - 1 {
        assert(channels.remove(i) =~= channels.drop_last());
    } else {
        counted_without_a_part(channels.drop_last(), i, all, start);
        assert(channels.remove(i).drop_last() =~= channels.drop_last().remove(i));
        assert(channels.remove(i).last() == channels.last());
    }
}

proof fn counted_alike(
    channels: Seq<(Seq<char>, u64)>,
    a: Seq<(Seq<char>, u64)>,
    b: Seq<(Seq<char>, u64)>,
    start: SocPower,
)
    requires
        forall|name: Seq<char>| #[trigger] is_part(a, name) == is_part(b, name),
    ensures
        counted(channels, a, start) == counted(channels, b, start),
    decreases channels.len(),
{
    if channels.len() > 0 {
        counted_alike(channels.drop_last(), a, b, start);
        assert(is_part(a, channels.last().0) == is_part(b, channels.last().0));
    }
}

/// A cluster's name has no underscore, so it is neither a memory rail nor a
/// core; and it begins like a part of the CPU, so it is not the GPU.
pub proof fn clusters_are_no_cores(name: Seq<char>, cluster: Seq<char>)
    requires
        cluster_of(name) == Some(cluster),
    ensures
        !ends(cluster, "_SRAM"@),
        cluster != "GPU"@,
        first_from(cluster, "_"@, 0) is None,
        upper(name).take(cluster.len() as int) == cluster,
        cluster.len() <= upper(name).len(),
{
    let n = upper(name);
    reveal_strlit("_");
    reveal_strlit("_SRAM");
    reveal_strlit("GPU");
    reveal_strlit("MCPU");
    reveal_strlit("PCPU");
    reveal_strlit("ECPU");
    reveal_strlit("PACC");
    reveal_strlit("EACC");
    reveal_strlit("MCPM");
    reveal_strlit("PCPM");
    text::first_from_is_least(n, "_"@, 0);
    text::first_from_is_least(cluster, "_"@, 0);
    let at = first_from(n, "_"@, 0)->0;
    assert(cluster == n.take(at));
    assert forall|k: int| 0 <= k < cluster.len() implies cluster[k] != '_' by {
        if cluster[k] == '_' {
            assert(n.subrange(k, k + 1) =~= "_"@);
            assert(text::occurs_at(n, "_"@, k));
        }
    }
    if let Some(k) = first_from(cluster, "_"@, 0) {
        assert(cluster.subrange(k, k + 1)[0] == "_"@[0]);
    }
    if ends(cluster, "_SRAM"@) {
        let k = cluster.len() - 5;
        assert(cluster.subrange(k, k + 5)[0] == "_SRAM"@[0]);
    }
    if cluster == "GPU"@ {
        assert(cluster.len() == 3);
    }
}

/// Whatever a part hides is hidden without it: if a cluster that is itself a
/// part goes, its cores are still parts of what it is a part of.
proof fn parts_hide_nothing_alone(
    channels: Seq<(Seq<char>, u64)>,
    i: int,
    name: Seq<char>,
)
    requires
        0 <= i < channels.len(),
        is_part(channels, channels[i].0),
        publishes(channels, "CPU Energy"@) == publishes(channels.remove(i), "CPU Energy"@),
        publishes(channels, "GPU Energy"@) == publishes(channels.remove(i), "GPU Energy"@),
    ensures
        is_part(channels, name) == is_part(channels.remove(i), name),
{
    let less = channels.remove(i);
    let cpu = publishes(channels, "CPU Energy"@);
    let gpu = publishes(channels, "GPU Energy"@);
    if let Some(cluster) = cluster_of(name) {
        if publishes_upper(less, cluster) {
            let k = choose|k: int| 0 <= k < less.len() && upper((#[trigger] less[k]).0) == cluster;
            assert(upper(channels[if k < i { k } else { k + 1 }].0) == cluster);
        }
        if publishes_upper(channels, cluster) {
            let k = choose|k: int|
                0 <= k < channels.len() && upper((#[trigger] channels[k]).0) == cluster;
            if k != i {
                assert(upper(less[if k < i { k } else { k - 1 }].0) == cluster);
            } else {
                let n = upper(name);
                clusters_are_no_cores(name, cluster);
                assert(cluster_of(channels[i].0) is None);
                if holds(cluster, "DTL"@) {
                    let j = choose|j: int| text::occurs_at(cluster, "DTL"@, j);
                    assert(n.subrange(j, j + "DTL"@.len()) =~= cluster.subrange(
                        j,
                        j + "DTL"@.len(),
                    ));
                    assert(text::occurs_at(n, "DTL"@, j));
                } else {
                    assert(cpu);
                    in_cpu_like_its_front(n, cluster);
                    cpu_parts_are_not_the_whole(n);
                }
                assert(part_of_another(name, cpu, gpu));
            }
        }
    }
}

proof fn begins_like_its_front(n: Seq<char>, front: Seq<char>, p: Seq<char>)
    requires
        front.len() <= n.len(),
        n.take(front.len() as int) == front,
        begins(front, p),
    ensures
        begins(n, p),
{
    assert(n.subrange(0, p.len() as int) =~= front.subrange(0, p.len() as int));
}

proof fn in_cpu_like_its_front(n: Seq<char>, front: Seq<char>)
    requires
        front.len() <= n.len(),
        n.take(front.len() as int) == front,
        in_cpu(front),
    ensures
        in_cpu(n),
{
    if begins(front, "MCPU"@) {
        begins_like_its_front(n, front, "MCPU"@);
    } else if begins(front, "PCPU"@) {
        begins_like_its_front(n, front, "PCPU"@);
    } else if begins(front, "ECPU"@) {
        begins_like_its_front(n, front, "ECPU"@);
    } else if begins(front, "PACC"@) {
        begins_like_its_front(n, front, "PACC"@);
    } else if begins(front, "EACC"@) {
        begins_like_its_front(n, front, "EACC"@);
    } else if begins(front, "MCPM"@) {
        begins_like_its_front(n, front, "MCPM"@);
    } else {
        begins_like_its_front(n, front, "PCPM"@);
    }
}

proof fn cpu_parts_are_not_the_whole(n: Seq<char>)
    requires
        in_cpu(n),
    ensures
        n != "CPU ENERGY"@,
{
    reveal_strlit("CPU ENERGY");
    reveal_strlit("MCPU");
    reveal_strlit("PCPU");
    reveal_strlit("ECPU");
    reveal_strlit("PACC");
    reveal_strlit("EACC");
    reveal_strlit("MCPM");
    reveal_strlit("PCPM");
    assert(n.subrange(0, 4)[0] == n[0]);
    assert("CPU ENERGY"@[0] == 'C');
}

proof fn removal_keeps_others(channels: Seq<(Seq<char>, u64)>, i: int, name: Seq<char>)
    requires
        0 <= i < channels.len(),
        channels[i].0 != name,
    ensures
        publishes(channels, name) == publishes(channels.remove(i), name),
{
    let less = channels.remove(i);
    if publishes(channels, name) {
        let k = choose|k: int| 0 <= k < channels.len() && (#[trigger] channels[k]).0 == name;
        assert(less[if k < i { k } else { k - 1 }].0 == name);
    }
    if publishes(less, name) {
        let k = choose|k: int| 0 <= k < less.len() && (#[trigger] less[k]).0 == name;
        assert(channels[if k < i { k } else { k + 1 }].0 == name);
    }
}

/// Each joule is counted once: a channel whose energy is already part of
/// another adds nothing, so the chip reads the same without it.
pub proof fn parts_add_nothing(channels: Seq<(Seq<char>, u64)>, i: int, start: SocPower)
    requires
        0 <= i < channels.len(),
        is_part(channels, channels[i].0),
    ensures
        power_of(channels, start) == power_of(channels.remove(i), start),
{
    let cpu = publishes(channels, "CPU Energy"@);
    let gpu = publishes(channels, "GPU Energy"@);
    let less = channels.remove(i);
    aggregates_are_no_parts(cpu, gpu);
    removal_keeps_others(channels, i, "CPU Energy"@);
    removal_keeps_others(channels, i, "GPU Energy"@);
    counted_without_a_part(channels, i, channels, start);
    assert forall|name: Seq<char>| #[trigger] is_part(channels, name) == is_part(less, name) by {
        parts_hide_nothing_alone(channels, i, name);
    }
    counted_alike(less, channels, less, start);
}

/// Where a cluster and its cores are published, the cores add nothing: the
/// energy of the cluster is counted once, with or without a channel for the
/// whole CPU.
pub proof fn cores_of_a_published_cluster_add_nothing(
    channels: Seq<(Seq<char>, u64)>,
    cluster: int,
    core: int,
    start: SocPower,
)
    requires
        0 <= cluster < channels.len(),
        0 <= core < channels.len(),
        cluster_of(channels[core].0) == Some(upper(channels[cluster].0)),
    ensures
        power_of(channels, start) == power_of(channels.remove(core), start),
{
    assert(publishes_upper(channels, upper(channels[cluster].0)));
    parts_add_nothing(channels, core, start);
}

proof fn aggregates_are_no_parts(cpu_aggregate: bool, gpu_aggregate: bool)
    ensures
        !part_of_another("CPU Energy"@, cpu_aggregate, gpu_aggregate),
        !part_of_another("GPU Energy"@, cpu_aggregate, gpu_aggregate),
        cluster_of("CPU Energy"@) is None,
        cluster_of("GPU Energy"@) is None,
{
    reveal_strlit("CPU Energy");
    reveal_strlit("GPU Energy");
    reveal_strlit("CPU ENERGY");
    reveal_strlit("GPU");
    reveal_strlit("DTL");
    reveal_strlit("_SRAM");
    reveal_strlit("MCPU");
    reveal_strlit("PCPU");
    reveal_strlit("ECPU");
    reveal_strlit("PACC");
    reveal_strlit("EACC");
    reveal_strlit("MCPM");
    reveal_strlit("PCPM");
    let c = upper("CPU Energy"@);
    let g = upper("GPU Energy"@);
    assert(c =~= "CPU ENERGY"@);
    assert(c[0] == 'C' && c[1] == 'P' && c[2] == 'U' && c[3] == ' ' && c[4] == 'E' && c[5] == 'N'
        && c[6] == 'E' && c[7] == 'R' && c[8] == 'G' && c[9] == 'Y');
    assert(g[0] == 'G' && g[1] == 'P' && g[2] == 'U' && g[3] == ' ' && g[4] == 'E' && g[5] == 'N'
        && g[6] == 'E' && g[7] == 'R' && g[8] == 'G' && g[9] == 'Y');
    assert forall|i: int| !text::occurs_at(c, "DTL"@, i) && !text::occurs_at(g, "DTL"@, i) by {
        if 0 <= i && i + 3 <= 10 {
            assert(c.subrange(i, i + 3)[0] == c[i]);
            assert(g.subrange(i, i + 3)[0] == g[i]);
            assert("DTL"@[0] == 'D');
        }
    }
    assert("_SRAM"@[4] == 'M');
    assert(c.subrange(5, 10)[4] == 'Y');
    assert(g.subrange(5, 10)[4] == 'Y');
    assert(c.skip(5)[4] == 'Y');
    assert(g.skip(5)[4] == 'Y');
    assert(g.subrange(0, 4)[0] == 'G');
    assert(g.take(4)[0] == 'G');
    reveal_strlit("_");
    text::first_from_is_least(c, "_"@, 0);
    text::first_from_is_least(g, "_"@, 0);
    if let Some(k) = first_from(c, "_"@, 0) {
        assert(c.subrange(k, k + 1)[0] == "_"@[0]);
    }
    if let Some(k) = first_from(g, "_"@, 0) {
        assert(g.subrange(k, k + 1)[0] == "_"@[0]);
    }
}

/// A state in which a block does nothing.
pub open spec fn idle(name: Seq<char>) -> bool {
    let n = upper(name);
    holds(n, "IDLE"@) || n == "DOWN"@ || n == "OFF"@
}

fn is_idle(name: &str) -> (r: bool)
    ensures
        r == idle(name@),
{
    let n = text::to_upper(&text::chars(name));
    text::contains(&n, "IDLE") || text::same(&n, "DOWN") || text::same(&n, "OFF")
}

/// The residency of all states.
pub open spec fn residency(states: Seq<(String, i64)>) -> int
    decreases states.len(),
{
    if states.len() == 0 {
        0
    } else {
        residency(states.drop_last()) + states.last().1
    }
}

/// The residency of the states that are not idle.
pub open spec fn active_residency(states: Seq<(String, i64)>) -> int
    decreases states.len(),
{
    if states.len() == 0 {
        0
    } else {
        active_residency(states.drop_last()) + if idle(states.last().0@) {
            0
        } else {
            states.last().1 as int
        }
    }
}

/// The place, counted from one, of the last active state that was visited.
pub open spec fn top_state(states: Seq<(String, i64)>) -> nat
    decreases states.len(),
{
    if states.len() == 0 {
        0
    } else if !idle(states.last().0@) && states.last().1 > 0 {
        states.len()
    } else {
        top_state(states.drop_last())
    }
}

/// `part / whole` in millionths, rounded toward zero.
pub open spec fn fraction(part: int, whole: int) -> i64 {
    if part >= 0 {
        if part * 1_000_000 / whole > i64::MAX {
            i64::MAX
        } else {
            (part * 1_000_000 / whole) as i64
        }
    } else if -part * 1_000_000 / whole > i64::MAX {
        (-i64::MAX) as i64
    } else {
        (-(-part * 1_000_000 / whole)) as i64
    }
}

/// The active fraction and the top active state of a list of states.
pub open spec fn summary(states: Seq<(String, i64)>) -> (Option<i64>, Option<u32>) {
    if states.len() > u32::MAX || residency(states) <= 0 {
        (None, None)
    } else {
        (
            Some(fraction(active_residency(states), residency(states))),
            if top_state(states) > 0 {
                Some(top_state(states) as u32)
            } else {
                None
            },
        )
    }
}

proof fn top_state_is_a_place(states: Seq<(String, i64)>)
    ensures
        top_state(states) <= states.len(),
    decreases states.len(),
{
    if states.len() > 0 {
        top_state_is_a_place(states.drop_last());
    }
}

/// From the residencies of performance states: the fraction of the time that
/// was not idle, and the highest step visited. Labels carry no frequency, so
/// none is given. A list that an ordinal cannot count has no summary.
pub fn summarize_states(states: &Vec<(String, i64)>) -> (r: (Option<i64>, Option<u32>))
    ensures
        r == summary(states@),
{
    if states.len() as u64 > u32::MAX as u64 {
        return (None, None);
    }
    let mut total: i128 = 0;
    let mut active: i128 = 0;
    let mut top: u32 = 0;
    let mut i: usize = 0;
    assert(states@.take(0) =~= seq![]);
    while i < states.len()
        invariant
            i <= states@.len() <= u32::MAX,
            total == residency(states@.take(i as int)),
            active == active_residency(states@.take(i as int)),
            top == top_state(states@.take(i as int)),
            -(i * 0x8000_0000_0000_0000) <= total <= i * 0x8000_0000_0000_0000,
            -(i * 0x8000_0000_0000_0000) <= active <= i * 0x8000_0000_0000_0000,
        decreases states.len() - i,
    {
        proof {
            assert(states@.take(i + 1).drop_last() =~= states@.take(i as int));
            assert(states@.take(i + 1).last() == states@[i as int]);
        }
        let time: i64 = states[i].1;
        total = total + time as i128;
        if !is_idle(states[i].0.as_str()) {
            active = active + time as i128;
            if time > 0 {
                top = (i + 1) as u32;
            }
        }
        i += 1;
    }
    assert(states@.take(i as int) =~= states@);
    if total <= 0 {
        return (None, None);
    }
    let share: i64 = if active >= 0 {
        let q: i128 = active * 1_000_000 / total;
        if q > i64::MAX as i128 {
            i64::MAX
        } else {
            q as i64
        }
    } else {
        let q: i128 = (-active) * 1_000_000 / total;
        if q > i64::MAX as i128 {
            -i64::MAX
        } else {
            (-q) as i64
        }
    };
    (
        Some(share),
        if top > 0 {
            Some(top)
        } else {
            None
        },
    )
}

pub proof fn active_is_part(states: Seq<(String, i64)>)
    requires
        forall|i: int| 0 <= i < states.len() ==> (#[trigger] states[i]).1 >= 0,
    ensures
        0 <= active_residency(states) <= residency(states),
    decreases states.len(),
{
    if states.len() > 0 {
        assert(states[states.len() - 1].1 >= 0);
        assert forall|i: int| 0 <= i < states.len() - 1 implies (
        #[trigger] states.drop_last()[i]).1 >= 0 by {
            assert(states[i].1 >= 0);
        }
        active_is_part(states.drop_last());
    }
}

/// A busy fraction lies between nothing and the whole, and a top step is one
/// of the steps.
pub proof fn busy_fraction_is_a_fraction(states: Seq<(String, i64)>)
    requires
        forall|i: int| 0 <= i < states.len() ==> (#[trigger] states[i]).1 >= 0,
    ensures
        summary(states).0 is Some ==> 0 <= summary(states).0->0 <= 1_000_000,
        summary(states).1 is Some ==> 1 <= summary(states).1->0 <= states.len(),
{
    active_is_part(states);
    top_state_is_a_place(states);
    let a = active_residency(states);
    let t = residency(states);
    if t > 0 {
        assert(0 <= a * 1_000_000 / t <= 1_000_000) by (nonlinear_arith)
            requires
                0 <= a <= t,
                t > 0,
        ;
    }
}

/// What the channels of one difference hold, sorted by what they are for.
pub ghost struct Collected {
    pub energy: Seq<(Seq<char>, u64)>,
    pub cpu: Seq<(String, i64)>,
    pub gpu: Seq<(String, i64)>,
}

/// The readings with those of one more channel. CPU states come from one
/// representative channel, and channels of idle time are passed over.
pub open spec fn with_item(c: Collected, item: ChannelItem, dt_ns: u64) -> Collected {
    if item.group@ == "Energy Model"@ {
        match watts_of(item.value, trimmed(item.unit@), dt_ns) {
            Some(w) => Collected { energy: c.energy.push((item.channel@, w)), ..c },
            None => c,
        }
    } else if item.group@ == "CPU Stats"@ {
        if !ends(item.channel@, "_IDLE"@) && (item.channel@ == "PCPU"@ || item.channel@
            == "MCPU0"@) {
            Collected { cpu: c.cpu + item.states@, ..c }
        } else {
            c
        }
    } else if item.group@ == "GPU Stats"@ && !ends(item.channel@, "_IDLE"@) {
        Collected { gpu: c.gpu + item.states@, ..c }
    } else {
        c
    }
}

/// The readings of all channels.
pub open spec fn collected(items: Seq<ChannelItem>, dt_ns: u64) -> Collected
    decreases items.len(),
{
    if items.len() == 0 {
        Collected { energy: seq![], cpu: seq![], gpu: seq![] }
    } else {
        with_item(collected(items.drop_last(), dt_ns), items.last(), dt_ns)
    }
}

/// No power.
pub open spec fn no_power() -> SocPower {
    SocPower {
        cpu_w: None,
        gpu_w: None,
        ane_w: None,
        dram_w: None,
        display_w: None,
        total_w: 0,
        cpu_active_residency: None,
        gpu_active_residency: None,
        cpu_top_pstate: None,
        gpu_top_pstate: None,
    }
}

/// The power of the chip over an interval; unknown if no energy channel can be
/// read.
pub open spec fn soc_of(items: Seq<ChannelItem>, dt_ns: u64) -> Option<SocPower> {
    let c = collected(items, dt_ns);
    if c.energy.len() == 0 {
        None
    } else {
        Some(
            SocPower {
                cpu_active_residency: summary(c.cpu).0,
                cpu_top_pstate: summary(c.cpu).1,
                gpu_active_residency: summary(c.gpu).0,
                gpu_top_pstate: summary(c.gpu).1,
                ..power_of(c.energy, no_power())
            },
        )
    }
}

fn extend(out: &mut Vec<(String, i64)>, states: &Vec<(String, i64)>)
    ensures
        final(out)@ == old(out)@ + states@,
{
    let mut i: usize = 0;
    assert(old(out)@ + states@.take(0) =~= old(out)@);
    while i < states.len()
        invariant
            i <= states@.len(),
            out@ == old(out)@ + states@.take(i as int),
        decreases states.len() - i,
    {
        out.push((states[i].0.clone(), states[i].1));
        assert(out@ =~= old(out)@ + states@.take(i + 1));
        i += 1;
    }
    assert(states@.take(i as int) =~= states@);
}

/// The power of the chip from the channels of the difference of two samples
/// that lie `dt_ns` apart.
pub fn soc_power(items: &Vec<ChannelItem>, dt_ns: u64) -> (r: Option<SocPower>)
    ensures
        r == soc_of(items@, dt_ns),
{
    let mut energy: Vec<(String, u64)> = Vec::new();
    let mut cpu: Vec<(String, i64)> = Vec::new();
    let mut gpu: Vec<(String, i64)> = Vec::new();
    let mut i: usize = 0;
    proof {
        assert(items@.take(0) =~= seq![]);
        assert(named(energy@) =~= seq![]);
    }
    while i < items.len()
        invariant
            i <= items@.len(),
            collected(items@.take(i as int), dt_ns) == (Collected {
                energy: named(energy@),
                cpu: cpu@,
                gpu: gpu@,
            }),
        decreases items.len() - i,
    {
        proof {
            assert(items@.take(i + 1).drop_last() =~= items@.take(i as int));
            assert(items@.take(i + 1).last() == items@[i as int]);
        }
        let item = &items[i];
        let group = text::chars(item.group.as_str());
        let channel = text::chars(item.channel.as_str());
        if text::same(&group, "Energy Model") {
            let unit = text::trim(&text::chars(item.unit.as_str()));
            if let Some(w) = energy_to_watts(item.value, &unit, dt_ns) {
                let ghost before = energy@;
                energy.push((text::copy(item.channel.as_str()), w));
                assert(named(energy@) =~= named(before).push((item.channel@, w)));
            }
        } else if text::same(&group, "CPU Stats") {
            if !text::ends_with(&channel, "_IDLE") && (text::same(&channel, "PCPU") || text::same(
                &channel,
                "MCPU0",
            )) {
                extend(&mut cpu, &item.states);
            }
        } else if text::same(&group, "GPU Stats") && !text::ends_with(&channel, "_IDLE") {
            extend(&mut gpu, &item.states);
        }
        i += 1;
    }
    assert(items@.take(i as int) =~= items@);
    if energy.len() == 0 {
        return None;
    }
    let mut soc = SocPower {
        cpu_w: None,
        gpu_w: None,
        ane_w: None,
        dram_w: None,
        display_w: None,
        total_w: 0,
        cpu_active_residency: None,
        gpu_active_residency: None,
        cpu_top_pstate: None,
        gpu_top_pstate: None,
    };
    accumulate_energy(&energy, &mut soc);
    let (cpu_active, cpu_top) = summarize_states(&cpu);
    let (gpu_active, gpu_top) = summarize_states(&gpu);
    soc.cpu_active_residency = cpu_active;
    soc.cpu_top_pstate = cpu_top;
    soc.gpu_active_residency = gpu_active;
    soc.gpu_top_pstate = gpu_top;
    Some(soc)
}

/// Differences the raw samples. Its interval is that between the instants at
/// which the samples were taken, not the caller's.
pub struct IoReportSampler {
    /// When the previous raw sample was taken, in nanoseconds.
    pub prev: Option<u64>,
}

impl IoReportSampler {
    pub fn new() -> (r: IoReportSampler)
        ensures
            r.prev is None,
    {
        IoReportSampler { prev: None }
    }

    /// Takes the difference between the previous raw sample and one taken at
    /// `taken_ns`. The first call has no previous sample and gives nothing.
    pub fn tick(&mut self, taken_ns: u64, delta: Option<&Vec<ChannelItem>>) -> (r: Option<SocPower>)
        ensures
            final(self).prev == Some(taken_ns),
            r == match (old(self).prev, delta) {
                (Some(before), Some(items)) => soc_of(
                    items@,
                    if taken_ns > before {
                        (taken_ns - before) as u64
                    } else {
                        0
                    },
                ),
                _ => None,
            },
    {
        let prev = self.prev;
        self.prev = Some(taken_ns);
        match (prev, delta) {
            (Some(before), Some(items)) => {
                let dt: u64 = if taken_ns > before {
                    taken_ns - before
                } else {
                    0
                };
                soc_power(items, dt)
            },
            _ => None,
        }
    }
}

impl Sampler for IoReportSampler {
    fn name(&self) -> (r: &'static str)
        ensures
            r@ == "IOReport (Energy Model + CPU/GPU stats)"@,
    {
        "IOReport (Energy Model + CPU/GPU stats)"
    }
}

} // verus!
