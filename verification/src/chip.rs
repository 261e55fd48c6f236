//! What the chip's power means, in terms of the channels that it publishes.

use crate::notation::{decimal_digits, searches_find_only_what_is_there, splits_are_at_the_first};
use crate::percent::all_digits;
use crate::samplers::ioreport::{
    active_residency, cluster_of, clusters_are_no_cores, collected, core_of_published, counted,
    idle, in_cpu, is_part, parts_add_nothing, power_of, publishes, publishes_upper, residency,
    soc_of, summary, top_state, watts_of, Block, ChannelItem,
};
use crate::text::{first_from, first_from_is_least, holds, lower, occurs_at, parts, trimmed, upper};
use crate::types::SocPower;
use vstd::prelude::*;

verus! {

/// A channel: its name and its power.
pub type Channel = (Seq<char>, u64);

/// The channel with this exact name is published.
pub open spec fn has_channel(channels: Seq<Channel>, name: Seq<char>) -> bool {
    exists|j: int| 0 <= j < channels.len() && (#[trigger] channels[j]).0 == name
}

/// A name in capitals that begins like that of a core, a cluster or what
/// belongs to a cluster.
pub open spec fn begins_like_the_cpu(n: Seq<char>) -> bool {
    n.len() >= 4 && (n.take(4) == "MCPU"@ || n.take(4) == "PCPU"@ || n.take(4) == "ECPU"@
        || n.take(4) == "PACC"@ || n.take(4) == "EACC"@ || n.take(4) == "MCPM"@ || n.take(4)
        == "PCPM"@)
}

/// The name is that of a numbered core of the cluster: the cluster's name, an
/// underscore and digits.
pub open spec fn is_core_of(core: Seq<char>, cluster: Seq<char>, number: Seq<char>) -> bool {
    &&& core == cluster + "_"@ + number
    &&& number.len() > 0
    &&& decimal_digits(number)
    &&& begins_like_the_cpu(cluster)
    &&& forall|k: int| 0 <= k < cluster.len() ==> cluster[k] != '_'
}

/// The energy of a channel is counted inside another: it is a detail of a
/// core's steps, a memory rail of its block, part of a published whole CPU, the
/// coarse twin of a fine GPU channel, or a core of a published cluster.
pub open spec fn counted_elsewhere(channels: Seq<Channel>, name: Seq<char>) -> bool {
    let n = upper(name);
    ||| exists|i: int| 0 <= i && i + 3 <= n.len() && #[trigger] n.subrange(i, i + 3) == "DTL"@
    ||| n.len() >= 5 && n.skip(n.len() - 5) == "_SRAM"@
    ||| has_channel(channels, "CPU Energy"@) && begins_like_the_cpu(n)
    ||| has_channel(channels, "GPU Energy"@) && n == "GPU"@
    ||| exists|j: int, number: Seq<char>|
        0 <= j < channels.len() && #[trigger] is_core_of(n, upper(channels[j].0), number)
}

proof fn prefixes_have_four_letters()
    ensures
        "MCPU"@.len() == 4,
        "PCPU"@.len() == 4,
        "ECPU"@.len() == 4,
        "PACC"@.len() == 4,
        "EACC"@.len() == 4,
        "MCPM"@.len() == 4,
        "PCPM"@.len() == 4,
        "DTL"@.len() == 3,
        "_SRAM"@.len() == 5,
        "_"@ == seq!['_'],
{
    reveal_strlit("MCPU");
    reveal_strlit("PCPU");
    reveal_strlit("ECPU");
    reveal_strlit("PACC");
    reveal_strlit("EACC");
    reveal_strlit("MCPM");
    reveal_strlit("PCPM");
    reveal_strlit("DTL");
    reveal_strlit("_SRAM");
    reveal_strlit("_");
    assert("_"@ =~= seq!['_']);
}

proof fn cpu_names(n: Seq<char>)
    ensures
        in_cpu(n) == begins_like_the_cpu(n),
        in_cpu(n) ==> n != "CPU ENERGY"@,
{
    prefixes_have_four_letters();
    if n.len() >= 4 {
        assert(n.subrange(0, 4) =~= n.take(4));
    }
    if in_cpu(n) {
        reveal_strlit("CPU ENERGY");
        reveal_strlit("MCPU");
        reveal_strlit("PCPU");
        reveal_strlit("ECPU");
        reveal_strlit("PACC");
        reveal_strlit("EACC");
        reveal_strlit("MCPM");
        reveal_strlit("PCPM");
        assert(n.take(4)[0] == n[0]);
        assert("CPU ENERGY"@[0] == 'C');
    }
}

proof fn cores_have_clusters(name: Seq<char>, cluster: Seq<char>)
    ensures
        cluster_of(name) == Some(cluster) <==> exists|number: Seq<char>|
            is_core_of(upper(name), cluster, number),
{
    let n = upper(name);
    prefixes_have_four_letters();
    splits_are_at_the_first(n, "_"@);
    cpu_names(cluster);
    if cluster_of(name) == Some(cluster) {
        clusters_are_no_cores(name, cluster);
        let (_, core) = parts(n, "_"@)->0;
        assert(n == cluster + "_"@ + core);
        assert forall|k: int| 0 <= k < cluster.len() implies cluster[k] != '_' by {
            first_from_is_least(cluster, "_"@, 0);
            if cluster[k] == '_' {
                assert(cluster.subrange(k, k + 1) =~= "_"@);
                assert(occurs_at(cluster, "_"@, k));
            }
        }
        assert(is_core_of(n, cluster, core));
    }
    if exists|number: Seq<char>| is_core_of(n, cluster, number) {
        let number = choose|number: Seq<char>| is_core_of(n, cluster, number);
        let at = cluster.len() as int;
        assert(n[at] == '_');
        assert(n.subrange(at, at + 1) =~= "_"@);
        first_from_is_least(n, "_"@, 0);
        assert(occurs_at(n, "_"@, at));
        let first = first_from(n, "_"@, 0)->0;
        assert(first == at) by {
            if first < at {
                assert(n.subrange(first, first + 1)[0] == "_"@[0]);
                assert(n[first] == cluster[first]);
            }
        }
        assert(n.take(at) =~= cluster);
        assert(n.skip(at + 1) =~= number);
        assert(all_digits(number)) by {
            assert forall|i: int| 0 <= i < number.len() implies crate::percent::is_digit(
                #[trigger] number[i],
            ) by {}
        }
    }
}

/// Which channels are not counted, by their names.
pub proof fn channels_counted_elsewhere_are_dropped(channels: Seq<Channel>, name: Seq<char>)
    ensures
        is_part(channels, name) == counted_elsewhere(channels, name),
{
    let n = upper(name);
    prefixes_have_four_letters();
    cpu_names(n);
    searches_find_only_what_is_there(n, "DTL"@);
    searches_find_only_what_is_there(n, "_SRAM"@);
    if exists|i: int| 0 <= i && i + 3 <= n.len() && #[trigger] n.subrange(i, i + 3) == "DTL"@ {
        let i = choose|i: int| 0 <= i && i + 3 <= n.len() && #[trigger] n.subrange(i, i + 3)
            == "DTL"@;
        assert(occurs_at(n, "DTL"@, i));
    }
    if holds(n, "DTL"@) {
        let i = choose|i: int| occurs_at(n, "DTL"@, i);
        assert(n.subrange(i, i + 3) == "DTL"@);
    }
    if n.len() >= 5 {
        assert(n.subrange(n.len() - 5, n.len() as int) =~= n.skip(n.len() - 5));
    }
    assert(has_channel(channels, "CPU Energy"@) == publishes(channels, "CPU Energy"@));
    assert(has_channel(channels, "GPU Energy"@) == publishes(channels, "GPU Energy"@));
    if core_of_published(channels, name) {
        let cluster = cluster_of(name)->0;
        cores_have_clusters(name, cluster);
        let number = choose|number: Seq<char>| is_core_of(n, cluster, number);
        let j = choose|j: int| 0 <= j < channels.len() && upper((#[trigger] channels[j]).0)
            == cluster;
        assert(is_core_of(n, upper(channels[j].0), number));
    }
    if exists|j: int, number: Seq<char>|
        0 <= j < channels.len() && #[trigger] is_core_of(n, upper(channels[j].0), number) {
        let (j, number) = choose|j: int, number: Seq<char>|
            0 <= j < channels.len() && #[trigger] is_core_of(n, upper(channels[j].0), number);
        cores_have_clusters(name, upper(channels[j].0));
        assert(publishes_upper(channels, upper(channels[j].0)));
    }
}

/// Where the whole CPU is published, no core, cluster or what belongs to one
/// adds anything: the chip reads the same without it.
pub proof fn parts_of_the_whole_cpu_add_nothing(
    channels: Seq<Channel>,
    whole: int,
    i: int,
    start: SocPower,
)
    requires
        0 <= whole < channels.len(),
        channels[whole].0 == "CPU Energy"@,
        0 <= i < channels.len(),
        upper(channels[i].0).len() >= 4,
        ({
            let front = upper(channels[i].0).take(4);
            ||| front == "ECPU"@
            ||| front == "PCPU"@
            ||| front == "MCPU"@
            ||| front == "EACC"@
            ||| front == "PACC"@
            ||| front == "MCPM"@
            ||| front == "PCPM"@
        }),
    ensures
        power_of(channels.remove(i), start) == power_of(channels, start),
{
    assert(has_channel(channels, "CPU Energy"@));
    channels_counted_elsewhere_are_dropped(channels, channels[i].0);
    parts_add_nothing(channels, i, start);
}

/// A channel with `DTL` in its name, one whose name ends in `_SRAM`, the coarse
/// GPU channel beside the fine one, and a core beside its cluster add nothing.
pub proof fn details_and_twins_add_nothing(channels: Seq<Channel>, i: int, start: SocPower)
    requires
        0 <= i < channels.len(),
        ({
            let n = upper(channels[i].0);
            ||| exists|k: int| 0 <= k && k + 3 <= n.len() && #[trigger] n.subrange(k, k + 3)
                == "DTL"@
            ||| n.len() >= 5 && n.skip(n.len() - 5) == "_SRAM"@
            ||| n == "GPU"@ && has_channel(channels, "GPU Energy"@)
            ||| exists|j: int, number: Seq<char>|
                0 <= j < channels.len() && #[trigger] is_core_of(n, upper(channels[j].0), number)
        }),
    ensures
        power_of(channels.remove(i), start) == power_of(channels, start),
{
    channels_counted_elsewhere_are_dropped(channels, channels[i].0);
    parts_add_nothing(channels, i, start);
}

/// The block of a channel, by what its name holds in small letters.
pub open spec fn belongs_to(name: Seq<char>, b: Block) -> bool {
    let c = lower(name);
    let display = holds(c, "disp"@);
    let ane = holds(c, "ane"@);
    let gpu = holds(c, "gpu"@);
    let dram = holds(c, "dram"@) || holds(c, "dcs"@) || holds(c, "amcc"@);
    let cpu = holds(c, "cpu"@);
    match b {
        Block::Display => display,
        Block::Ane => !display && ane,
        Block::Gpu => !display && !ane && gpu,
        Block::Dram => !display && !ane && !gpu && dram,
        Block::Cpu => !display && !ane && !gpu && !dram && cpu,
        Block::Other => !display && !ane && !gpu && !dram && !cpu,
    }
}

/// The power of the channels that are counted, of one block or of all.
pub open spec fn sum_of(channels: Seq<Channel>, all: Seq<Channel>, block: Option<Block>) -> int
    decreases channels.len(),
{
    if channels.len() == 0 {
        0
    } else {
        let (name, w) = channels.last();
        sum_of(channels.drop_last(), all, block) + if !counted_elsewhere(all, name) && (block is None
            || belongs_to(name, block->0)) {
            w as int
        } else {
            0
        }
    }
}

/// Some counted channel belongs to the block.
pub open spec fn has_block(channels: Seq<Channel>, all: Seq<Channel>, block: Block) -> bool {
    exists|i: int|
        0 <= i < channels.len() && belongs_to((#[trigger] channels[i]).0, block)
            && !counted_elsewhere(all, channels[i].0)
}

/// The total is `x`, or the largest that fits.
pub open spec fn is_total(total: u64, x: int) -> bool {
    total == (if x > u64::MAX { u64::MAX as int } else { x })
}

/// The total is that of a block with some channel in it.
pub open spec fn is_block_total(total: Option<u64>, present: bool, x: int) -> bool {
    &&& total is Some <==> present
    &&& present ==> is_total(total->0, x)
}

proof fn sums_are_counted(channels: Seq<Channel>, all: Seq<Channel>, start: SocPower)
    requires
        start.total_w == 0,
        start.cpu_w is None,
        start.gpu_w is None,
        start.ane_w is None,
        start.dram_w is None,
        start.display_w is None,
    ensures
        ({
            let soc = counted(channels, all, start);
            &&& sum_of(channels, all, None) >= 0
            &&& is_total(soc.total_w, sum_of(channels, all, None))
            &&& sums_in(channels, all, soc.cpu_w, Block::Cpu)
            &&& sums_in(channels, all, soc.gpu_w, Block::Gpu)
            &&& sums_in(channels, all, soc.ane_w, Block::Ane)
            &&& sums_in(channels, all, soc.dram_w, Block::Dram)
            &&& sums_in(channels, all, soc.display_w, Block::Display)
        }),
    decreases channels.len(),
{
    if channels.len() > 0 {
        let less = channels.drop_last();
        let (name, w) = channels.last();
        sums_are_counted(less, all, start);
        channels_counted_elsewhere_are_dropped(all, name);
        let was = counted(less, all, start);
        let soc = counted(channels, all, start);
        a_block_grows(channels, all, was.cpu_w, soc.cpu_w, Block::Cpu);
        a_block_grows(channels, all, was.gpu_w, soc.gpu_w, Block::Gpu);
        a_block_grows(channels, all, was.ane_w, soc.ane_w, Block::Ane);
        a_block_grows(channels, all, was.dram_w, soc.dram_w, Block::Dram);
        a_block_grows(channels, all, was.display_w, soc.display_w, Block::Display);
    }
}

/// A block's total is the sum of its counted channels, and unknown without any.
pub open spec fn sums_in(
    channels: Seq<Channel>,
    all: Seq<Channel>,
    total: Option<u64>,
    block: Block,
) -> bool {
    &&& sum_of(channels, all, Some(block)) >= 0
    &&& is_block_total(
        total,
        has_block(channels, all, block),
        sum_of(channels, all, Some(block)),
    )
}

proof fn a_block_grows(
    channels: Seq<Channel>,
    all: Seq<Channel>,
    before: Option<u64>,
    after: Option<u64>,
    block: Block,
)
    requires
        channels.len() > 0,
        sums_in(channels.drop_last(), all, before, block),
        ({
            let (name, w) = channels.last();
            let x = (match before {
                Some(t) => t,
                None => 0,
            }) + w;
            if !counted_elsewhere(all, name) && belongs_to(name, block) {
                after is Some && after->0 == (if x > u64::MAX { u64::MAX as int } else { x })
            } else {
                after == before
            }
        }),
    ensures
        sums_in(channels, all, after, block),
{
    let less = channels.drop_last();
    let n = channels.len() - 1;
    assert(channels[n] == channels.last());
    if has_block(less, all, block) {
        let i = choose|i: int|
            0 <= i < less.len() && belongs_to((#[trigger] less[i]).0, block) && !counted_elsewhere(
                all,
                less[i].0,
            );
        assert(channels[i] == less[i]);
    }
    if has_block(channels, all, block) {
        let i = choose|i: int|
            0 <= i < channels.len() && belongs_to((#[trigger] channels[i]).0, block)
                && !counted_elsewhere(all, channels[i].0);
        if i < n {
            assert(less[i] == channels[i]);
        }
    }
    if !has_block(less, all, block) {
        no_block_no_sum(less, all, block);
    }
}

proof fn no_block_no_sum(channels: Seq<Channel>, all: Seq<Channel>, block: Block)
    requires
        !has_block(channels, all, block),
    ensures
        sum_of(channels, all, Some(block)) == 0,
    decreases channels.len(),
{
    if channels.len() > 0 {
        let less = channels.drop_last();
        assert(channels[channels.len() - 1] == channels.last());
        if has_block(less, all, block) {
            let i = choose|i: int|
                0 <= i < less.len() && belongs_to((#[trigger] less[i]).0, block)
                    && !counted_elsewhere(all, less[i].0);
            assert(channels[i] == less[i]);
        }
        no_block_no_sum(less, all, block);
    }
}

/// The power of a chip is the sum of its channels that are not counted inside
/// another, in all and block by block; a block without a channel is unknown.
pub proof fn the_chip_is_the_sum_of_its_channels(channels: Seq<Channel>, start: SocPower)
    requires
        start.total_w == 0,
        start.cpu_w is None,
        start.gpu_w is None,
        start.ane_w is None,
        start.dram_w is None,
        start.display_w is None,
    ensures
        ({
            let soc = power_of(channels, start);
            &&& is_total(soc.total_w, sum_of(channels, channels, None))
            &&& sums_in(channels, channels, soc.cpu_w, Block::Cpu)
            &&& sums_in(channels, channels, soc.gpu_w, Block::Gpu)
            &&& sums_in(channels, channels, soc.ane_w, Block::Ane)
            &&& sums_in(channels, channels, soc.dram_w, Block::Dram)
            &&& sums_in(channels, channels, soc.display_w, Block::Display)
        }),
{
    sums_are_counted(channels, channels, start);
}

/// A channel's power is its energy over the interval, in microwatts: one joule
/// is a thousand millijoules, a million microjoules, a billion nanojoules. Any
/// other unit, and a counter that fell, is unknown.
pub proof fn energy_over_time_is_power(value: i64, dt: u64)
    requires
        value >= 0,
    ensures
        ({
            let t = if dt == 0 { 1 } else { dt as int };
            let fits = |r: Option<u64>, scale: int|
                r is Some && r->0 * t <= value * scale && (r->0 < u64::MAX ==> value * scale < (r->0
                    + 1) * t);
            &&& fits(watts_of(value, "nJ"@, dt), 1_000_000)
            &&& fits(watts_of(value, "uJ"@, dt), 1_000_000_000)
            &&& fits(watts_of(value, "mJ"@, dt), 1_000_000_000_000)
            &&& fits(watts_of(value, "J"@, dt), 1_000_000_000_000_000)
        }),
{
    let t = if dt == 0 { 1 } else { dt as int };
    units_differ();
    crate::notation::a_rate_times_its_interval_is_the_growth(value as int, 1_000_000, t);
    crate::notation::a_rate_times_its_interval_is_the_growth(value as int, 1_000_000_000, t);
    crate::notation::a_rate_times_its_interval_is_the_growth(value as int, 1_000_000_000_000, t);
    crate::notation::a_rate_times_its_interval_is_the_growth(value as int, 1_000_000_000_000_000, t);
}

proof fn units_differ()
    ensures
        "nJ"@ != "uJ"@,
        "nJ"@ != "mJ"@,
        "nJ"@ != "J"@,
        "uJ"@ != "mJ"@,
        "uJ"@ != "J"@,
        "mJ"@ != "J"@,
{
    reveal_strlit("nJ");
    reveal_strlit("uJ");
    reveal_strlit("mJ");
    reveal_strlit("J");
    assert("nJ"@[0] == 'n');
    assert("uJ"@[0] == 'u');
    assert("mJ"@[0] == 'm');
    assert("J"@.len() == 1);
}

/// Other units and falling counters are unknown.
pub proof fn other_units_are_unknown(value: i64, unit: Seq<char>, dt: u64)
    requires
        value < 0 || (unit != "nJ"@ && unit != "uJ"@ && unit != "mJ"@ && unit != "J"@),
    ensures
        watts_of(value, unit, dt) is None,
{
}

/// A state in which nothing is done.
pub open spec fn does_nothing(name: Seq<char>) -> bool {
    let n = upper(name);
    n == "DOWN"@ || n == "OFF"@ || exists|i: int|
        0 <= i && i + 4 <= n.len() && #[trigger] n.subrange(i, i + 4) == "IDLE"@
}

/// The time in all states, or in those that do something.
pub open spec fn time_in(states: Seq<(String, i64)>, busy: bool) -> int
    decreases states.len(),
{
    if states.len() == 0 {
        0
    } else {
        time_in(states.drop_last(), busy) + if busy && does_nothing(states.last().0@) {
            0
        } else {
            states.last().1 as int
        }
    }
}

proof fn idleness(name: Seq<char>)
    ensures
        idle(name) == does_nothing(name),
{
    let n = upper(name);
    reveal_strlit("IDLE");
    assert("IDLE"@.len() == 4);
    if holds(n, "IDLE"@) {
        let i = choose|i: int| occurs_at(n, "IDLE"@, i);
        assert(n.subrange(i, i + 4) == "IDLE"@);
    }
    if exists|i: int| 0 <= i && i + 4 <= n.len() && #[trigger] n.subrange(i, i + 4) == "IDLE"@ {
        let i = choose|i: int| 0 <= i && i + 4 <= n.len() && #[trigger] n.subrange(i, i + 4)
            == "IDLE"@;
        assert(occurs_at(n, "IDLE"@, i));
    }
}

proof fn times_are_residencies(states: Seq<(String, i64)>)
    ensures
        residency(states) == time_in(states, false),
        active_residency(states) == time_in(states, true),
    decreases states.len(),
{
    if states.len() > 0 {
        times_are_residencies(states.drop_last());
        idleness(states.last().0@);
    }
}

proof fn the_top_is_the_last_visited(states: Seq<(String, i64)>)
    ensures
        top_state(states) <= states.len(),
        top_state(states) > 0 ==> !does_nothing(states[top_state(states) - 1].0@) && states[
        top_state(states) - 1].1 > 0,
        forall|i: int|
            top_state(states) <= i < states.len() ==> does_nothing((#[trigger] states[i]).0@)
                || states[i].1 <= 0,
    decreases states.len(),
{
    if states.len() > 0 {
        let less = states.drop_last();
        the_top_is_the_last_visited(less);
        idleness(states.last().0@);
        assert(states[states.len() - 1] == states.last());
        assert forall|i: int| top_state(states) <= i < states.len() implies does_nothing(
            (#[trigger] states[i]).0@,
        ) || states[i].1 <= 0 by {
            if i < less.len() {
                assert(less[i] == states[i]);
            }
        }
        if top_state(states) > 0 && top_state(states) <= less.len() {
            assert(less[top_state(states) - 1] == states[top_state(states) - 1]);
        }
    }
}

/// The busy fraction is the time in states that do something over all time, in
/// millionths; the top step is the last such state that was visited, counted
/// from one. Without any time both are unknown.
pub proof fn states_tell_how_busy_a_block_is(states: Seq<(String, i64)>)
    requires
        states.len() <= u32::MAX,
        forall|i: int| 0 <= i < states.len() ==> (#[trigger] states[i]).1 >= 0,
    ensures
        ({
            let total = time_in(states, false);
            let busy = time_in(states, true);
            let (f, top) = summary(states);
            &&& total <= 0 <==> f is None
            &&& total <= 0 ==> top is None
            &&& total > 0 ==> f->0 * total <= busy * 1_000_000 < (f->0 + 1) * total
            &&& total > 0 && top is Some ==> 1 <= top->0 <= states.len() && !does_nothing(
                states[top->0 - 1].0@,
            ) && states[top->0 - 1].1 > 0 && forall|i: int|
                top->0 <= i < states.len() ==> does_nothing((#[trigger] states[i]).0@)
                    || states[i].1 == 0
            &&& total > 0 && top is None ==> forall|i: int|
                0 <= i < states.len() ==> does_nothing((#[trigger] states[i]).0@) || states[i].1
                    == 0
        }),
{
    times_are_residencies(states);
    the_top_is_the_last_visited(states);
    crate::samplers::ioreport::active_is_part(states);
    let (a, t) = (active_residency(states), residency(states));
    if t > 0 {
        assert(0 <= a * 1_000_000 / t <= 1_000_000) by (nonlinear_arith)
            requires
                0 <= a <= t,
                t > 0,
        ;
        let q = a * 1_000_000 / t;
        let p = a * 1_000_000;
        assert(q * t <= p < (q + 1) * t) by (nonlinear_arith)
            requires
                t > 0,
                p >= 0,
                q == p / t,
        ;
    }
}

/// A channel of the energy group gives its power, by its unit without blanks;
/// the states of a block come from one representative CPU channel and from
/// every GPU channel, without channels of idle time. Other groups give nothing.
pub proof fn channels_are_sorted_by_group(items: Seq<ChannelItem>, item: ChannelItem, dt: u64)
    ensures
        ({
            let c = collected(items, dt);
            let r = collected(items.push(item), dt);
            let energy = item.group@ == "Energy Model"@;
            let cpu = item.group@ == "CPU Stats"@ && (item.channel@ == "PCPU"@ || item.channel@
                == "MCPU0"@);
            let gpu = item.group@ == "GPU Stats"@ && !(item.channel@.len() >= 5
                && item.channel@.skip(item.channel@.len() - 5) == "_IDLE"@);
            let w = watts_of(item.value, trimmed(item.unit@), dt);
            &&& energy && w is Some ==> r.energy == c.energy.push((item.channel@, w->0))
            &&& !energy || w is None ==> r.energy == c.energy
            &&& cpu ==> r.cpu == c.cpu + item.states@
            &&& !cpu ==> r.cpu == c.cpu
            &&& gpu ==> r.gpu == c.gpu + item.states@
            &&& !gpu ==> r.gpu == c.gpu
            &&& collected(seq![], dt).energy.len() == 0
            &&& collected(seq![], dt).cpu.len() == 0
            &&& collected(seq![], dt).gpu.len() == 0
        }),
{
    assert(items.push(item).drop_last() =~= items);
    reveal_strlit("_IDLE");
    reveal_strlit("PCPU");
    reveal_strlit("MCPU0");
    reveal_strlit("Energy Model");
    reveal_strlit("CPU Stats");
    reveal_strlit("GPU Stats");
    assert("_IDLE"@.len() == 5);
    assert("Energy Model"@.len() == 12);
    assert("CPU Stats"@[0] == 'C');
    assert("GPU Stats"@[0] == 'G');
    assert("CPU Stats"@.len() == 9);
    assert("GPU Stats"@.len() == 9);
    let ch = item.channel@;
    if ch.len() >= 5 {
        assert(ch.subrange(ch.len() - 5, ch.len() as int) =~= ch.skip(ch.len() - 5));
    }
    if ch == "PCPU"@ {
        assert(ch.len() == 4);
    }
    if ch == "MCPU0"@ {
        assert(ch.skip(0)[0] == 'M');
        assert("_IDLE"@[0] == '_');
    }
}

/// The chip of some channels: unknown without an energy channel, otherwise the
/// sum of its energy channels and how busy its states say it is.
pub proof fn the_chip_is_what_its_channels_give(items: Seq<ChannelItem>, dt: u64)
    ensures
        ({
            let c = collected(items, dt);
            let r = soc_of(items, dt);
            &&& r is None <==> c.energy.len() == 0
            &&& r is Some ==> {
                let soc = r->0;
                &&& is_total(soc.total_w, sum_of(c.energy, c.energy, None))
                &&& sums_in(c.energy, c.energy, soc.cpu_w, Block::Cpu)
                &&& sums_in(c.energy, c.energy, soc.gpu_w, Block::Gpu)
                &&& sums_in(c.energy, c.energy, soc.ane_w, Block::Ane)
                &&& sums_in(c.energy, c.energy, soc.dram_w, Block::Dram)
                &&& sums_in(c.energy, c.energy, soc.display_w, Block::Display)
                &&& (soc.cpu_active_residency, soc.cpu_top_pstate) == summary(c.cpu)
                &&& (soc.gpu_active_residency, soc.gpu_top_pstate) == summary(c.gpu)
            }
        }),
{
    let c = collected(items, dt);
    the_chip_is_the_sum_of_its_channels(c.energy, crate::samplers::ioreport::no_power());
}

} // verus!
