//! What one sample of the report channels says about the machine.
use crate::arith::{
    exact, int_total, is_cut, quotient_of_exact, real_total, sum, sum_is, sum_of_exact, total,
    zero_div, zero_div_is, Floats,
};
use crate::channel::{classify, described, kind_of, kinds_are_described, ChannelKind};
use crate::freq::{
    calc_freq, calc_freq_final, check_freq_data, cluster_freq_is, cluster_law, cluster_of_exact,
    core_law, core_of_exact, fitting_tables, freq_data_ok, freq_is, rests_until, table_fits,
};
use crate::histogram::{
    can_be_tallied, checked_count, count_all, countable, lists_are_tallied, tallies,
    MetricHistogram,
};
use crate::metrics::{is_zero, MemMetrics, Metrics};
use core::ops::Div;
use vstd::prelude::*;

verus! {

/// The frequencies that the chip can run at, in ascending order.
#[derive(Debug)]
pub struct SocInfo {
    /// Those of the efficiency cores.
    pub ecpu_freqs: Vec<u32>,
    /// Those of the performance cores.
    pub pcpu_freqs: Vec<u32>,
    /// Those of the graphics unit; the first one stands for its being off.
    pub gpu_freqs: Vec<u32>,
}

/// What was read from a channel.
#[derive(Debug)]
pub enum Reading<F> {
    /// A label and a count for each state.
    Residencies(Vec<(String, i64)>),
    /// Power in watts.
    Watts(F),
    /// A number of bytes.
    Bytes(u64),
    /// Nothing.
    Unread,
}

/// A channel of a report and what was read from it.
#[derive(Debug)]
pub struct Channel<F> {
    pub group: String,
    pub subgroup: String,
    pub channel: String,
    pub reading: Reading<F>,
}

/// The frequencies of the graphics unit without the first one, which stands for its being
/// off.
pub open spec fn running(freqs: Seq<u32>) -> Seq<u32> {
    if freqs.len() == 0 {
        freqs
    } else {
        freqs.skip(1)
    }
}

impl<F> Channel<F> {
    /// What the channel reports.
    pub open spec fn kind(self) -> ChannelKind {
        kind_of(self.group@, self.subgroup@, self.channel@)
    }

    /// The states that were read.
    pub open spec fn residencies(self) -> Seq<(String, i64)> {
        self.reading->Residencies_0@
    }

    /// The power that was read.
    pub open spec fn watts(self) -> F {
        self.reading->Watts_0
    }

    /// The number of bytes that was read.
    pub open spec fn bytes(self) -> int {
        self.reading->Bytes_0 as int
    }

    /// What the kind of the channel calls for was read from it, and where these are the
    /// residencies of a core, there is a frequency for each of its active states.
    pub open spec fn wf(self, soc: SocInfo) -> bool {
        match self.kind() {
            ChannelKind::EcpuCore => self.reading is Residencies && freq_data_ok(
                self.residencies(),
                soc.ecpu_freqs@,
            ),
            ChannelKind::PcpuCore => self.reading is Residencies && freq_data_ok(
                self.residencies(),
                soc.pcpu_freqs@,
            ),
            ChannelKind::Gpu => self.reading is Residencies && freq_data_ok(
                self.residencies(),
                running(soc.gpu_freqs@),
            ),
            ChannelKind::CpuEnergy | ChannelKind::GpuEnergy | ChannelKind::AneEnergy => {
                self.reading is Watts
            },
            ChannelKind::AneRead
            | ChannelKind::AneWrite
            | ChannelKind::SysRead
            | ChannelKind::SysWrite => self.reading is Bytes,
            ChannelKind::AneBandwidth => self.reading is Residencies,
            ChannelKind::Other => true,
        }
    }
}

/// The channels of one kind, in order.
pub open spec fn of_kind<F>(channels: Seq<Channel<F>>, kind: ChannelKind) -> Seq<Channel<F>> {
    channels.filter(|c: Channel<F>| c.kind() == kind)
}

/// What the channels of one kind say of the power, in order.
pub open spec fn watts_of<F>(channels: Seq<Channel<F>>, kind: ChannelKind) -> Seq<F> {
    of_kind(channels, kind).map_values(|c: Channel<F>| c.watts())
}

/// The states of the channels of one kind, in order.
pub open spec fn residencies_of<F>(channels: Seq<Channel<F>>, kind: ChannelKind) -> Seq<
    Seq<(String, i64)>,
> {
    of_kind(channels, kind).map_values(|c: Channel<F>| c.residencies())
}

/// The bytes of the channels of one kind in all.
pub open spec fn bytes_of<F>(channels: Seq<Channel<F>>, kind: ChannelKind) -> int
    decreases channels.len(),
{
    if channels.len() == 0 {
        0
    } else {
        bytes_of(channels.drop_last(), kind) + if channels.last().kind() == kind {
            channels.last().bytes()
        } else {
            0
        }
    }
}

/// The bytes that are left of `sys` without those of the neural engine; none where there
/// are more of those.
pub open spec fn without(sys: int, ane: int) -> int {
    if sys >= ane {
        sys - ane
    } else {
        0
    }
}

/// The sample can be evaluated: there are frequencies for both kinds of cores, every
/// channel was read as its kind calls for, and no count outgrows 64 bits.
pub open spec fn sample_ok<F>(soc: SocInfo, channels: Seq<Channel<F>>) -> bool {
    &&& soc.ecpu_freqs@.len() > 0
    &&& soc.pcpu_freqs@.len() > 0
    &&& forall|i: int| 0 <= i < channels.len() ==> #[trigger] channels[i].wf(soc)
    &&& bytes_of(channels, ChannelKind::AneRead) <= u64::MAX
    &&& bytes_of(channels, ChannelKind::AneWrite) <= u64::MAX
    &&& bytes_of(channels, ChannelKind::SysRead) <= u64::MAX
    &&& bytes_of(channels, ChannelKind::SysWrite) <= u64::MAX
    &&& countable(residencies_of(channels, ChannelKind::AneBandwidth))
}

/// `cores` are the frequencies of the cores with the residencies `lists`.
pub open spec fn cores_are<N: Floats>(
    lists: Seq<Seq<(String, i64)>>,
    freqs: Seq<u32>,
    cores: Seq<(u32, N::Single)>,
) -> bool {
    &&& cores.len() == lists.len()
    &&& forall|i: int| 0 <= i < lists.len() ==> freq_is::<N>(lists[i], freqs, #[trigger] cores[i])
}

/// `r` is the frequency of the cluster whose cores have the residencies `lists`.
pub open spec fn usage_is<N: Floats>(
    lists: Seq<Seq<(String, i64)>>,
    freqs: Seq<u32>,
    r: (u32, N::Single),
) -> bool {
    exists|cores: Seq<(u32, N::Single)>| #[trigger]
        cores_are::<N>(lists, freqs, cores) && cluster_freq_is::<N>(cores, freqs, r)
}

/// `r` is the frequency of the graphics unit: what its last channel says, and zero where
/// it has none.
pub open spec fn gpu_usage_is<N: Floats>(
    lists: Seq<Seq<(String, i64)>>,
    freqs: Seq<u32>,
    r: (u32, N::Single),
) -> bool {
    if lists.len() == 0 {
        r.0 == 0 && is_zero(r.1)
    } else {
        freq_is::<N>(lists.last(), freqs, r)
    }
}

/// `r` follows by the given steps from `bytes` moved in `millis` milliseconds.
pub open spec fn rate_steps<N: Floats>(
    bytes: u64,
    millis: u64,
    amount: N::Double,
    time: N::Double,
    thousand: N::Double,
    seconds: N::Double,
    rate: N::Double,
    r: u64,
) -> bool {
    &&& call_ensures(N::double_of_u64, (bytes,), amount)
    &&& call_ensures(N::double_of_u64, (millis,), time)
    &&& call_ensures(N::double_of_u64, (1000,), thousand)
    &&& call_ensures(<N::Double as Div>::div, (time, thousand), seconds)
    &&& zero_div_is(amount, seconds, rate)
    &&& call_ensures(N::u64_of_double, (rate,), r)
}

/// `r` is the number of bytes per second where `bytes` are moved in `millis` milliseconds,
/// and zero where no time passes.
pub open spec fn rate_is<N: Floats>(bytes: u64, millis: u64, r: u64) -> bool {
    exists|
        amount: N::Double,
        time: N::Double,
        thousand: N::Double,
        seconds: N::Double,
        rate: N::Double,
    | rate_steps::<N>(bytes, millis, amount, time, thousand, seconds, rate, r)
}

/// The number of bytes per second where `bytes` are moved in `millis` milliseconds.
pub fn bytes_per_second<N: Floats>(bytes: u64, millis: u64) -> (r: u64)
    requires
        total::<N>(),
    ensures
        rate_is::<N>(bytes, millis, r),
{
    let amount = N::double_of_u64(bytes);
    let time = N::double_of_u64(millis);
    let thousand = N::double_of_u64(1000);
    let seconds = time / thousand;
    let rate = zero_div(amount, seconds);
    let r = N::u64_of_double(rate);
    assert(rate_steps::<N>(bytes, millis, amount, time, thousand, seconds, rate, r));
    r
}

/// `m` is what the channels `channels`, sampled over `millis` milliseconds, say of the
/// machine.
pub open spec fn sample_is<N: Floats>(
    soc: SocInfo,
    channels: Seq<Channel<N::Single>>,
    millis: u64,
    m: Metrics<N::Single>,
) -> bool {
    let ane_rd = bytes_of(channels, ChannelKind::AneRead);
    let ane_wr = bytes_of(channels, ChannelKind::AneWrite);
    let sys_rd = bytes_of(channels, ChannelKind::SysRead);
    let sys_wr = bytes_of(channels, ChannelKind::SysWrite);
    &&& usage_is::<N>(
        residencies_of(channels, ChannelKind::EcpuCore),
        soc.ecpu_freqs@,
        m.ecpu_usage,
    )
    &&& usage_is::<N>(
        residencies_of(channels, ChannelKind::PcpuCore),
        soc.pcpu_freqs@,
        m.pcpu_usage,
    )
    &&& gpu_usage_is::<N>(
        residencies_of(channels, ChannelKind::Gpu),
        running(soc.gpu_freqs@),
        m.gpu_usage,
    )
    &&& sum_is(watts_of(channels, ChannelKind::CpuEnergy), m.cpu_power)
    &&& sum_is(watts_of(channels, ChannelKind::GpuEnergy), m.gpu_power)
    &&& sum_is(watts_of(channels, ChannelKind::AneEnergy), m.ane_power)
    &&& rate_is::<N>(ane_rd as u64, millis, m.ane_rd_bw)
    &&& rate_is::<N>(ane_wr as u64, millis, m.ane_wr_bw)
    &&& rate_is::<N>(without(sys_rd, ane_rd) as u64, millis, m.sys_rd_bw)
    &&& rate_is::<N>(without(sys_wr, ane_wr) as u64, millis, m.sys_wr_bw)
    &&& m.ane_bw_hist.wf()
    &&& m.ane_bw_hist@ == count_all(residencies_of(channels, ChannelKind::AneBandwidth))
    &&& m.memory == (MemMetrics { ram_total: 0, ram_usage: 0, swap_total: 0, swap_usage: 0 })
    &&& is_zero(m.temp.cpu_temp_avg) && is_zero(m.temp.gpu_temp_avg)
    &&& is_zero(m.all_power) && is_zero(m.sys_power)
}

proof fn of_kind_push<F>(channels: Seq<Channel<F>>, c: Channel<F>, kind: ChannelKind)
    ensures
        of_kind(channels.push(c), kind) == if c.kind() == kind {
            of_kind(channels, kind).push(c)
        } else {
            of_kind(channels, kind)
        },
        watts_of(channels.push(c), kind) == if c.kind() == kind {
            watts_of(channels, kind).push(c.watts())
        } else {
            watts_of(channels, kind)
        },
        residencies_of(channels.push(c), kind) == if c.kind() == kind {
            residencies_of(channels, kind).push(c.residencies())
        } else {
            residencies_of(channels, kind)
        },
{
    channels.lemma_filter_push(c, |c: Channel<F>| c.kind() == kind);
    assert(watts_of(channels.push(c), kind) =~= if c.kind() == kind {
        watts_of(channels, kind).push(c.watts())
    } else {
        watts_of(channels, kind)
    });
    assert(residencies_of(channels.push(c), kind) =~= if c.kind() == kind {
        residencies_of(channels, kind).push(c.residencies())
    } else {
        residencies_of(channels, kind)
    });
}

proof fn of_kind_empty<F>(channels: Seq<Channel<F>>, kind: ChannelKind)
    requires
        channels.len() == 0,
    ensures
        of_kind(channels, kind).len() == 0,
        watts_of(channels, kind).len() == 0,
        residencies_of(channels, kind).len() == 0,
{
    reveal_with_fuel(Seq::filter, 1);
}

/// The channels of a kind that come first come first among those of that kind.
proof fn of_kind_prefix<F>(channels: Seq<Channel<F>>, kind: ChannelKind, n: int)
    requires
        0 <= n <= channels.len(),
    ensures
        residencies_of(channels.take(n), kind).is_prefix_of(residencies_of(channels, kind)),
{
    let pred = |c: Channel<F>| c.kind() == kind;
    Seq::filter_distributes_over_add(channels.take(n), channels.skip(n), pred);
    assert(channels.take(n) + channels.skip(n) =~= channels);
}

proof fn bytes_of_grows<F>(channels: Seq<Channel<F>>, kind: ChannelKind, n: int)
    requires
        0 <= n <= channels.len(),
    ensures
        0 <= bytes_of(channels.take(n), kind) <= bytes_of(channels, kind),
    decreases channels.len(),
{
    if n < channels.len() {
        bytes_of_grows(channels.drop_last(), kind, n);
        assert(channels.drop_last().take(n) =~= channels.take(n));
    } else {
        assert(channels.take(n) =~= channels);
        if n > 0 {
            bytes_of_grows(channels.drop_last(), kind, n - 1);
        }
    }
}

proof fn countable_prefix(lists: Seq<Seq<(String, i64)>>, n: int)
    requires
        countable(lists),
        0 <= n <= lists.len(),
    ensures
        countable(lists.take(n)),
    decreases lists.len(),
{
    if n < lists.len() {
        countable_prefix(lists.drop_last(), n);
        assert(lists.drop_last().take(n) =~= lists.take(n));
    } else {
        assert(lists.take(n) =~= lists);
    }
}

/// `kinds` are the kinds of `channels`.
spec fn kinds_are<F>(channels: Seq<Channel<F>>, kinds: Seq<ChannelKind>) -> bool {
    &&& kinds.len() == channels.len()
    &&& forall|i: int| 0 <= i < channels.len() ==> #[trigger] kinds[i] == channels[i].kind()
}

/// Every channel was read as its kind calls for.
spec fn all_wf<F>(soc: SocInfo, channels: Seq<Channel<F>>) -> bool {
    forall|i: int| 0 <= i < channels.len() ==> #[trigger] channels[i].wf(soc)
}

fn kinds_of<F>(channels: &Vec<Channel<F>>) -> (kinds: Vec<ChannelKind>)
    ensures
        kinds_are(channels@, kinds@),
{
    let mut kinds: Vec<ChannelKind> = Vec::new();
    for i in 0..channels.len()
        invariant
            kinds_are(channels@.take(i as int), kinds@),
    {
        let c = &channels[i];
        kinds.push(classify(c.group.as_str(), c.subgroup.as_str(), c.channel.as_str()));
    }
    kinds
}

fn running_freqs(freqs: &Vec<u32>) -> (r: Vec<u32>)
    ensures
        r@ == running(freqs@),
{
    let mut r: Vec<u32> = Vec::new();
    if freqs.len() > 0 {
        for i in 1..freqs.len()
            invariant
                freqs@.len() > 0,
                r@ == freqs@.subrange(1, i as int),
        {
            r.push(freqs[i]);
        }
    }
    r
}

fn check_channel<F>(
    soc: &SocInfo,
    gpu_freqs: &Vec<u32>,
    c: &Channel<F>,
    kind: ChannelKind,
) -> (r: bool)
    requires
        kind == c.kind(),
        gpu_freqs@ == running(soc.gpu_freqs@),
    ensures
        r == c.wf(*soc),
{
    match kind {
        ChannelKind::EcpuCore => match &c.reading {
            Reading::Residencies(items) => check_freq_data(items, &soc.ecpu_freqs),
            _ => false,
        },
        ChannelKind::PcpuCore => match &c.reading {
            Reading::Residencies(items) => check_freq_data(items, &soc.pcpu_freqs),
            _ => false,
        },
        ChannelKind::Gpu => match &c.reading {
            Reading::Residencies(items) => check_freq_data(items, gpu_freqs),
            _ => false,
        },
        ChannelKind::CpuEnergy | ChannelKind::GpuEnergy | ChannelKind::AneEnergy => {
            match &c.reading {
                Reading::Watts(_) => true,
                _ => false,
            }
        },
        ChannelKind::AneRead
        | ChannelKind::AneWrite
        | ChannelKind::SysRead
        | ChannelKind::SysWrite => match &c.reading {
            Reading::Bytes(_) => true,
            _ => false,
        },
        ChannelKind::AneBandwidth => match &c.reading {
            Reading::Residencies(_) => true,
            _ => false,
        },
        ChannelKind::Other => true,
    }
}

impl<F> Channel<F> {
    /// Whether what was read from the channel is what its kind calls for, and fits the
    /// chip.
    pub fn check(&self, soc: &SocInfo) -> (r: bool)
        ensures
            r == self.wf(*soc),
    {
        let kind = classify(self.group.as_str(), self.subgroup.as_str(), self.channel.as_str());
        check_channel(soc, &running_freqs(&soc.gpu_freqs), self, kind)
    }
}

fn check_channels<F>(
    soc: &SocInfo,
    gpu_freqs: &Vec<u32>,
    channels: &Vec<Channel<F>>,
    kinds: &Vec<ChannelKind>,
) -> (r: bool)
    requires
        kinds_are(channels@, kinds@),
        gpu_freqs@ == running(soc.gpu_freqs@),
    ensures
        r == all_wf(*soc, channels@),
{
    for i in 0..channels.len()
        invariant
            kinds_are(channels@, kinds@),
            gpu_freqs@ == running(soc.gpu_freqs@),
            forall|j: int| 0 <= j < i ==> #[trigger] channels@[j].wf(*soc),
    {
        if !check_channel(soc, gpu_freqs, &channels[i], kinds[i]) {
            return false;
        }
    }
    true
}

fn byte_total<F>(
    channels: &Vec<Channel<F>>,
    kinds: &Vec<ChannelKind>,
    kind: ChannelKind,
    Ghost(soc): Ghost<SocInfo>,
) -> (r: Option<u64>)
    requires
        kinds_are(channels@, kinds@),
        all_wf(soc, channels@),
        kind is AneRead || kind is AneWrite || kind is SysRead || kind is SysWrite,
    ensures
        r is Some <==> bytes_of(channels@, kind) <= u64::MAX,
        r matches Some(n) ==> n == bytes_of(channels@, kind),
{
    let mut n: u64 = 0;
    for i in 0..channels.len()
        invariant
            kinds_are(channels@, kinds@),
            all_wf(soc, channels@),
            kind is AneRead || kind is AneWrite || kind is SysRead || kind is SysWrite,
            n == bytes_of(channels@.take(i as int), kind),
    {
        proof {
            let upto = channels@.take(i + 1);
            assert(upto.drop_last() =~= channels@.take(i as int));
            assert(upto.last() == channels@[i as int]);
            assert(channels@[i as int].wf(soc));
            bytes_of_grows(channels@, kind, i + 1);
        }
        if kinds[i] == kind {
            if let Reading::Bytes(bytes) = &channels[i].reading {
                match n.checked_add(*bytes) {
                    Some(more) => {
                        n = more;
                    },
                    None => {
                        return None;
                    },
                }
            }
        }
    }
    assert(channels@.take(channels@.len() as int) =~= channels@);
    Some(n)
}

fn watts<F: Copy>(
    channels: &Vec<Channel<F>>,
    kinds: &Vec<ChannelKind>,
    kind: ChannelKind,
    Ghost(soc): Ghost<SocInfo>,
) -> (r: Vec<F>)
    requires
        kinds_are(channels@, kinds@),
        all_wf(soc, channels@),
        kind is CpuEnergy || kind is GpuEnergy || kind is AneEnergy,
    ensures
        r@ == watts_of(channels@, kind),
{
    let mut r: Vec<F> = Vec::new();
    proof {
        of_kind_empty(channels@.take(0), kind);
    }
    for i in 0..channels.len()
        invariant
            kinds_are(channels@, kinds@),
            all_wf(soc, channels@),
            kind is CpuEnergy || kind is GpuEnergy || kind is AneEnergy,
            r@ == watts_of(channels@.take(i as int), kind),
    {
        proof {
            assert(channels@.take(i + 1) =~= channels@.take(i as int).push(channels@[i as int]));
            of_kind_push(channels@.take(i as int), channels@[i as int], kind);
            assert(channels@[i as int].wf(soc));
        }
        if kinds[i] == kind {
            if let Reading::Watts(power) = &channels[i].reading {
                r.push(*power);
            }
        }
    }
    assert(channels@.take(channels@.len() as int) =~= channels@);
    r
}

/// The channels of kind `kind` hold residencies for which `freqs` has frequencies.
spec fn core_data_ok<F>(
    channels: Seq<Channel<F>>,
    kind: ChannelKind,
    freqs: Seq<u32>,
) -> bool {
    forall|i: int|
        0 <= i < channels.len() && (#[trigger] channels[i]).kind() == kind ==> {
            &&& channels[i].reading is Residencies
            &&& freq_data_ok(channels[i].residencies(), freqs)
        }
}

proof fn wf_core_data<F>(soc: SocInfo, channels: Seq<Channel<F>>)
    requires
        all_wf(soc, channels),
    ensures
        core_data_ok(channels, ChannelKind::EcpuCore, soc.ecpu_freqs@),
        core_data_ok(channels, ChannelKind::PcpuCore, soc.pcpu_freqs@),
        core_data_ok(channels, ChannelKind::Gpu, running(soc.gpu_freqs@)),
{
    assert forall|i: int| 0 <= i < channels.len() implies {
        let c = #[trigger] channels[i];
        &&& c.kind() == ChannelKind::EcpuCore ==> c.reading is Residencies && freq_data_ok(
            c.residencies(),
            soc.ecpu_freqs@,
        )
        &&& c.kind() == ChannelKind::PcpuCore ==> c.reading is Residencies && freq_data_ok(
            c.residencies(),
            soc.pcpu_freqs@,
        )
        &&& c.kind() == ChannelKind::Gpu ==> c.reading is Residencies && freq_data_ok(
            c.residencies(),
            running(soc.gpu_freqs@),
        )
    } by {
        assert(channels[i].wf(soc));
    }
}

fn core_freqs<N: Floats>(
    channels: &Vec<Channel<N::Single>>,
    kinds: &Vec<ChannelKind>,
    kind: ChannelKind,
    freqs: &Vec<u32>,
) -> (r: Vec<(u32, N::Single)>)
    requires
        total::<N>(),
        kinds_are(channels@, kinds@),
        core_data_ok(channels@, kind, freqs@),
    ensures
        cores_are::<N>(residencies_of(channels@, kind), freqs@, r@),
{
    let mut r: Vec<(u32, N::Single)> = Vec::new();
    proof {
        of_kind_empty(channels@.take(0), kind);
    }
    for i in 0..channels.len()
        invariant
            total::<N>(),
            kinds_are(channels@, kinds@),
            core_data_ok(channels@, kind, freqs@),
            cores_are::<N>(residencies_of(channels@.take(i as int), kind), freqs@, r@),
    {
        let c = &channels[i];
        proof {
            assert(channels@.take(i + 1) =~= channels@.take(i as int).push(*c));
            of_kind_push(channels@.take(i as int), *c, kind);
        }
        if kinds[i] == kind {
            if let Reading::Residencies(items) = &c.reading {
                r.push(calc_freq::<N>(items, freqs));
            }
        }
    }
    assert(channels@.take(channels@.len() as int) =~= channels@);
    r
}

fn bandwidth_histogram<F>(
    channels: &Vec<Channel<F>>,
    kinds: &Vec<ChannelKind>,
    Ghost(soc): Ghost<SocInfo>,
) -> (r: Option<MetricHistogram>)
    requires
        kinds_are(channels@, kinds@),
        all_wf(soc, channels@),
    ensures
        r is Some <==> countable(residencies_of(channels@, ChannelKind::AneBandwidth)),
        r matches Some(h) ==> h.wf() && h@ == count_all(
            residencies_of(channels@, ChannelKind::AneBandwidth),
        ),
{
    let kind = ChannelKind::AneBandwidth;
    let ghost all = residencies_of(channels@, kind);
    let mut h: MetricHistogram = Default::default();
    proof {
        of_kind_empty(channels@.take(0), kind);
    }
    for i in 0..channels.len()
        invariant
            kinds_are(channels@, kinds@),
            all_wf(soc, channels@),
            kind == ChannelKind::AneBandwidth,
            all == residencies_of(channels@, kind),
            h.wf(),
            h@ == count_all(residencies_of(channels@.take(i as int), kind)),
            countable(residencies_of(channels@.take(i as int), kind)),
    {
        let ghost before = residencies_of(channels@.take(i as int), kind);
        let ghost after = residencies_of(channels@.take(i + 1), kind);
        proof {
            assert(channels@.take(i + 1) =~= channels@.take(i as int).push(channels@[i as int]));
            of_kind_push(channels@.take(i as int), channels@[i as int], kind);
            assert(channels@[i as int].wf(soc));
            of_kind_prefix(channels@, kind, i + 1);
            assert(after =~= all.take(after.len() as int));
        }
        if kinds[i] == kind {
            if let Reading::Residencies(events) = &channels[i].reading {
                proof {
                    assert(after.drop_last() =~= before);
                    assert(after.last() == events@);
                }
                match checked_count(&h, events) {
                    Some(more) => {
                        h = more;
                    },
                    None => {
                        proof {
                            assert(!countable(after));
                            if countable(all) {
                                countable_prefix(all, after.len() as int);
                            }
                        }
                        return None;
                    },
                }
            }
        }
    }
    assert(channels@.take(channels@.len() as int) =~= channels@);
    Some(h)
}

/// What the channels `channels`, sampled over `millis` milliseconds, say of the machine,
/// or nothing where they cannot be evaluated. Memory, temperatures and the power of the
/// whole system are not among it and left at zero.
///
/// The counters of the whole system hold those of the neural engine too, so these are
/// taken out of them.
pub fn sample_metrics<N: Floats>(
    soc: &SocInfo,
    channels: &Vec<Channel<N::Single>>,
    millis: u64,
) -> (r: Option<Metrics<N::Single>>)
    requires
        total::<N>(),
    ensures
        r is Some <==> sample_ok(*soc, channels@),
        r matches Some(m) ==> sample_is::<N>(*soc, channels@, millis, m),
{
    if soc.ecpu_freqs.len() == 0 || soc.pcpu_freqs.len() == 0 {
        return None;
    }
    let kinds = kinds_of(channels);
    let gpu_freqs = running_freqs(&soc.gpu_freqs);
    if !check_channels(soc, &gpu_freqs, channels, &kinds) {
        return None;
    }
    let ghost s = *soc;
    let (ane_rd, ane_wr, sys_rd, sys_wr) = match (
        byte_total(channels, &kinds, ChannelKind::AneRead, Ghost(s)),
        byte_total(channels, &kinds, ChannelKind::AneWrite, Ghost(s)),
        byte_total(channels, &kinds, ChannelKind::SysRead, Ghost(s)),
        byte_total(channels, &kinds, ChannelKind::SysWrite, Ghost(s)),
    ) {
        (Some(a), Some(b), Some(c), Some(d)) => (a, b, c, d),
        _ => {
            return None;
        },
    };
    let ane_bw_hist = match bandwidth_histogram(channels, &kinds, Ghost(s)) {
        Some(h) => h,
        None => {
            return None;
        },
    };
    proof {
        wf_core_data(s, channels@);
    }
    let ecpu_cores = core_freqs::<N>(channels, &kinds, ChannelKind::EcpuCore, &soc.ecpu_freqs);
    let pcpu_cores = core_freqs::<N>(channels, &kinds, ChannelKind::PcpuCore, &soc.pcpu_freqs);
    let gpus = core_freqs::<N>(channels, &kinds, ChannelKind::Gpu, &gpu_freqs);
    let gpu_usage: (u32, N::Single) = if gpus.len() > 0 {
        gpus[gpus.len() - 1]
    } else {
        (0, Default::default())
    };
    let mut m: Metrics<N::Single> = Default::default();
    m.ecpu_usage = calc_freq_final::<N>(&ecpu_cores, &soc.ecpu_freqs);
    m.pcpu_usage = calc_freq_final::<N>(&pcpu_cores, &soc.pcpu_freqs);
    m.gpu_usage = gpu_usage;
    m.cpu_power = sum(&watts(channels, &kinds, ChannelKind::CpuEnergy, Ghost(s)));
    m.gpu_power = sum(&watts(channels, &kinds, ChannelKind::GpuEnergy, Ghost(s)));
    m.ane_power = sum(&watts(channels, &kinds, ChannelKind::AneEnergy, Ghost(s)));
    m.sys_rd_bw = bytes_per_second::<N>(sys_rd.saturating_sub(ane_rd), millis);
    m.sys_wr_bw = bytes_per_second::<N>(sys_wr.saturating_sub(ane_wr), millis);
    m.ane_rd_bw = bytes_per_second::<N>(ane_rd, millis);
    m.ane_wr_bw = bytes_per_second::<N>(ane_wr, millis);
    m.ane_bw_hist = ane_bw_hist;
    Some(m)
}

proof fn bytes_of_concat<F>(a: Seq<Channel<F>>, b: Seq<Channel<F>>, kind: ChannelKind)
    ensures
        bytes_of(a + b, kind) == bytes_of(a, kind) + bytes_of(b, kind),
    decreases b.len(),
{
    if b.len() == 0 {
        assert(a + b =~= a);
    } else {
        bytes_of_concat(a, b.drop_last(), kind);
        assert((a + b).drop_last() =~= a + b.drop_last());
    }
}

/// The order in which the channels of a sample are listed does not change how many bytes
/// are counted.
pub proof fn channel_order_is_immaterial_to_bytes<F>(
    a: Seq<Channel<F>>,
    b: Seq<Channel<F>>,
    kind: ChannelKind,
)
    ensures
        bytes_of(a + b, kind) == bytes_of(b + a, kind),
        bytes_of(a + b, kind) == bytes_of(a, kind) + bytes_of(b, kind),
{
    bytes_of_concat(a, b, kind);
    bytes_of_concat(b, a, kind);
}

proof fn of_kind_without<F>(
    a: Seq<Channel<F>>,
    c: Channel<F>,
    b: Seq<Channel<F>>,
    kind: ChannelKind,
)
    requires
        c.kind() != kind,
    ensures
        of_kind(a.push(c) + b, kind) == of_kind(a + b, kind),
        bytes_of(a.push(c) + b, kind) == bytes_of(a + b, kind),
{
    let pred = |c: Channel<F>| c.kind() == kind;
    of_kind_push(a, c, kind);
    Seq::filter_distributes_over_add(a.push(c), b, pred);
    Seq::filter_distributes_over_add(a, b, pred);
    bytes_of_concat(a.push(c), b, kind);
    bytes_of_concat(a, b, kind);
    assert(a.push(c).drop_last() =~= a);
}

/// A channel that is not used changes nothing: neither whether the sample can be evaluated
/// nor what it says of the machine.
pub proof fn unused_channels_change_nothing<N: Floats>(
    soc: SocInfo,
    before: Seq<Channel<N::Single>>,
    c: Channel<N::Single>,
    after: Seq<Channel<N::Single>>,
    millis: u64,
    m: Metrics<N::Single>,
)
    requires
        c.kind() == ChannelKind::Other,
    ensures
        sample_ok(soc, before.push(c) + after) <==> sample_ok(soc, before + after),
        sample_is::<N>(soc, before.push(c) + after, millis, m) <==> sample_is::<N>(
            soc,
            before + after,
            millis,
            m,
        ),
{
    of_kind_without(before, c, after, ChannelKind::EcpuCore);
    of_kind_without(before, c, after, ChannelKind::PcpuCore);
    of_kind_without(before, c, after, ChannelKind::Gpu);
    of_kind_without(before, c, after, ChannelKind::CpuEnergy);
    of_kind_without(before, c, after, ChannelKind::GpuEnergy);
    of_kind_without(before, c, after, ChannelKind::AneEnergy);
    of_kind_without(before, c, after, ChannelKind::AneRead);
    of_kind_without(before, c, after, ChannelKind::AneWrite);
    of_kind_without(before, c, after, ChannelKind::SysRead);
    of_kind_without(before, c, after, ChannelKind::SysWrite);
    of_kind_without(before, c, after, ChannelKind::AneBandwidth);
    let more = before.push(c) + after;
    let less = before + after;
    let n = before.len() as int;
    if all_wf(soc, more) {
        assert forall|i: int| 0 <= i < less.len() implies #[trigger] less[i].wf(soc) by {
            assert(more[if i < n { i } else { i + 1 }].wf(soc));
        }
    }
    if all_wf(soc, less) {
        assert forall|i: int| 0 <= i < more.len() implies #[trigger] more[i].wf(soc) by {
            if i != n {
                assert(less[if i < n { i } else { i - 1 }].wf(soc));
            }
        }
    }
}

/// The channels that are used, in order.
pub open spec fn used<F>(channels: Seq<Channel<F>>) -> Seq<Channel<F>> {
    channels.filter(|c: Channel<F>| c.kind() != ChannelKind::Other)
}

proof fn used_push<F>(channels: Seq<Channel<F>>, c: Channel<F>)
    ensures
        used(channels.push(c)) == if c.kind() != ChannelKind::Other {
            used(channels).push(c)
        } else {
            used(channels)
        },
{
    channels.lemma_filter_push(c, |c: Channel<F>| c.kind() != ChannelKind::Other);
}

proof fn of_kind_used<F>(channels: Seq<Channel<F>>, kind: ChannelKind)
    requires
        kind != ChannelKind::Other,
    ensures
        of_kind(used(channels), kind) == of_kind(channels, kind),
        bytes_of(used(channels), kind) == bytes_of(channels, kind),
    decreases channels.len(),
{
    if channels.len() == 0 {
        reveal_with_fuel(Seq::filter, 1);
        assert(used(channels) =~= channels);
    } else {
        let before = channels.drop_last();
        let c = channels.last();
        assert(channels =~= before.push(c));
        of_kind_used(before, kind);
        used_push(before, c);
        of_kind_push(before, c, kind);
        of_kind_push(used(before), c, kind);
        assert(used(before).push(c).drop_last() =~= used(before));
    }
}

proof fn all_wf_used<F>(soc: SocInfo, channels: Seq<Channel<F>>)
    ensures
        all_wf(soc, used(channels)) <==> all_wf(soc, channels),
    decreases channels.len(),
{
    if channels.len() == 0 {
        reveal_with_fuel(Seq::filter, 1);
        assert(used(channels) =~= channels);
    } else {
        let before = channels.drop_last();
        let c = channels.last();
        assert(channels =~= before.push(c));
        all_wf_used(soc, before);
        used_push(before, c);
        all_wf_push(soc, before, c);
        all_wf_push(soc, used(before), c);
    }
}

proof fn all_wf_push<F>(soc: SocInfo, channels: Seq<Channel<F>>, c: Channel<F>)
    ensures
        all_wf(soc, channels.push(c)) <==> all_wf(soc, channels) && c.wf(soc),
{
    let more = channels.push(c);
    if all_wf(soc, more) {
        assert forall|i: int| 0 <= i < channels.len() implies #[trigger] channels[i].wf(soc) by {
            assert(more[i].wf(soc));
        }
        assert(more[channels.len() as int].wf(soc));
    }
}

/// Only the channels that are used matter: without the others, a sample can be evaluated
/// in the same cases and says the same of the machine.
pub proof fn only_used_channels_matter<N: Floats>(
    soc: SocInfo,
    channels: Seq<Channel<N::Single>>,
    millis: u64,
    m: Metrics<N::Single>,
)
    ensures
        sample_ok(soc, used(channels)) <==> sample_ok(soc, channels),
        sample_is::<N>(soc, used(channels), millis, m) <==> sample_is::<N>(
            soc,
            channels,
            millis,
            m,
        ),
{
    all_wf_used(soc, channels);
    of_kind_used(channels, ChannelKind::EcpuCore);
    of_kind_used(channels, ChannelKind::PcpuCore);
    of_kind_used(channels, ChannelKind::Gpu);
    of_kind_used(channels, ChannelKind::CpuEnergy);
    of_kind_used(channels, ChannelKind::GpuEnergy);
    of_kind_used(channels, ChannelKind::AneEnergy);
    of_kind_used(channels, ChannelKind::AneRead);
    of_kind_used(channels, ChannelKind::AneWrite);
    of_kind_used(channels, ChannelKind::SysRead);
    of_kind_used(channels, ChannelKind::SysWrite);
    of_kind_used(channels, ChannelKind::AneBandwidth);
    assert(all_wf(soc, channels) <==> forall|i: int|
        0 <= i < channels.len() ==> #[trigger] channels[i].wf(soc));
    assert(all_wf(soc, used(channels)) <==> forall|i: int|
        0 <= i < used(channels).len() ==> #[trigger] used(channels)[i].wf(soc));
}

/// By its names `c` reports what `kind` says.
pub open spec fn is_a<F>(c: Channel<F>, kind: ChannelKind) -> bool {
    described(kind, c.group@, c.subgroup@, c.channel@)
}

proof fn kind_is_described<F>(c: Channel<F>, kind: ChannelKind)
    ensures
        c.kind() == kind <==> is_a(c, kind),
{
    kinds_are_described(c.group@, c.subgroup@, c.channel@, kind);
}

/// What the channels that report `kind` counted in all.
pub open spec fn moved<F>(channels: Seq<Channel<F>>, kind: ChannelKind) -> int {
    int_total(
        channels,
        |c: Channel<F>|
            if is_a(c, kind) {
                c.reading->Bytes_0 as int
            } else {
                0
            },
    )
}

proof fn bytes_are_moved<F>(channels: Seq<Channel<F>>, kind: ChannelKind)
    ensures
        bytes_of(channels, kind) == moved(channels, kind),
        moved(channels, kind) >= 0,
    decreases channels.len(),
{
    if channels.len() > 0 {
        bytes_are_moved(channels.drop_last(), kind);
        kind_is_described(channels.last(), kind);
    }
}

/// `r` is the number of whole bytes per second where `bytes` are moved in `millis`
/// milliseconds, as far as 64 bits can hold it; and zero where no time passes.
pub open spec fn per_second(bytes: int, millis: int, r: u64) -> bool {
    if millis == 0 {
        r == 0
    } else if 1000 * bytes >= (u64::MAX + 1) * millis {
        r == u64::MAX
    } else {
        r * millis <= 1000 * bytes < (r + 1) * millis
    }
}

proof fn rate_of_exact<N: Floats>(
    bytes: u64,
    millis: u64,
    r: u64,
    single: spec_fn(N::Single) -> real,
    double: spec_fn(N::Double) -> real,
)
    requires
        exact::<N>(single, double),
        rate_is::<N>(bytes, millis, r),
    ensures
        per_second(bytes as int, millis as int, r),
{
    let (amount, time, thousand, seconds, rate) = choose|
        amount: N::Double,
        time: N::Double,
        thousand: N::Double,
        seconds: N::Double,
        rate: N::Double,
    | rate_steps::<N>(bytes, millis, amount, time, thousand, seconds, rate, r);
    quotient_of_exact(amount, seconds, rate, double);
    let a = double(amount);
    let t = double(time);
    let s = double(seconds);
    let x = double(rate);
    let b = bytes as int;
    let m = millis as int;
    let top = u64::MAX as int;
    assert(s == t / (1000 as real));
    assert(s * (1000 as real) == t) by (nonlinear_arith)
        requires
            s == t / (1000 as real),
    ;
    assert(is_cut(x, top, r as int));
    if m > 0 {
        assert(s > 0 as real);
        assert(x * t == (1000 as real) * a) by (nonlinear_arith)
            requires
                x * s == a,
                s * (1000 as real) == t,
        ;
        assert(x * (m as real) == (1000 * b) as real) by (nonlinear_arith)
            requires
                x * t == (1000 as real) * a,
                t == m as real,
                a == b as real,
        ;
        let y = m as real;
        let z = (1000 * b) as real;
        assert(x >= 0 as real) by (nonlinear_arith)
            requires
                x * y == z,
                y > 0 as real,
                z >= 0 as real,
        ;
        if 1000 * b >= (top + 1) * m {
            assert(x >= (top + 1) as real) by (nonlinear_arith)
                requires
                    x * y == z,
                    y == m as real,
                    z == (1000 * b) as real,
                    m > 0,
                    1000 * b >= (top + 1) * m,
            ;
        } else {
            assert(x < (top + 1) as real) by (nonlinear_arith)
                requires
                    x * y == z,
                    y == m as real,
                    z == (1000 * b) as real,
                    m > 0,
                    1000 * b < (top + 1) * m,
            ;
            let q = r as int;
            assert(q * m <= 1000 * b && 1000 * b < (q + 1) * m) by (nonlinear_arith)
                requires
                    x * y == z,
                    y == m as real,
                    z == (1000 * b) as real,
                    m > 0,
                    q as real <= x,
                    x < (q + 1) as real,
            ;
        }
    } else {
        assert(s == 0 as real);
    }
}

/// Where arithmetic is exact, `bytes_per_second` gives the number of whole bytes that come
/// on a second.
pub proof fn rates_count_whole_bytes<N: Floats>(
    bytes: u64,
    millis: u64,
    single: spec_fn(N::Single) -> real,
    double: spec_fn(N::Double) -> real,
    r: u64,
)
    requires
        exact::<N>(single, double),
        call_ensures(bytes_per_second::<N>, (bytes, millis), r),
    ensures
        per_second(bytes as int, millis as int, r),
{
    rate_of_exact::<N>(bytes, millis, r, single, double);
}

/// `rest` is what of `sys` is left beside `ane`: with it, it makes up `sys`. Where `ane` is
/// more than all of `sys`, nothing is left.
pub open spec fn is_rest(sys: int, ane: int, rest: u64) -> bool {
    &&& sys >= ane ==> rest + ane == sys
    &&& sys < ane ==> rest == 0
}

/// The bandwidths that `sample_metrics` reports are the rates of what was counted: for the
/// neural engine of its own counters, and for the rest of the system of what makes up the
/// counters of the whole system together with them.
pub proof fn system_and_engine_share_the_counters<N: Floats>(
    soc: SocInfo,
    channels: Vec<Channel<N::Single>>,
    millis: u64,
    m: Metrics<N::Single>,
)
    requires
        call_ensures(sample_metrics::<N>, (&soc, &channels, millis), Some(m)),
    ensures
        exists|rest: u64| #[trigger]
            rate_is::<N>(rest, millis, m.sys_rd_bw) && is_rest(
                moved(channels@, ChannelKind::SysRead),
                moved(channels@, ChannelKind::AneRead),
                rest,
            ),
        exists|rest: u64| #[trigger]
            rate_is::<N>(rest, millis, m.sys_wr_bw) && is_rest(
                moved(channels@, ChannelKind::SysWrite),
                moved(channels@, ChannelKind::AneWrite),
                rest,
            ),
        exists|own: u64| #[trigger]
            rate_is::<N>(own, millis, m.ane_rd_bw) && own == moved(
                channels@,
                ChannelKind::AneRead,
            ),
        exists|own: u64| #[trigger]
            rate_is::<N>(own, millis, m.ane_wr_bw) && own == moved(
                channels@,
                ChannelKind::AneWrite,
            ),
{
    bytes_are_moved(channels@, ChannelKind::AneRead);
    bytes_are_moved(channels@, ChannelKind::AneWrite);
    bytes_are_moved(channels@, ChannelKind::SysRead);
    bytes_are_moved(channels@, ChannelKind::SysWrite);
    let ane_rd = bytes_of(channels@, ChannelKind::AneRead);
    let ane_wr = bytes_of(channels@, ChannelKind::AneWrite);
    let sys_rd = bytes_of(channels@, ChannelKind::SysRead);
    let sys_wr = bytes_of(channels@, ChannelKind::SysWrite);
    assert(sample_ok(soc, channels@));
    assert(rate_is::<N>(without(sys_rd, ane_rd) as u64, millis, m.sys_rd_bw));
    assert(rate_is::<N>(without(sys_wr, ane_wr) as u64, millis, m.sys_wr_bw));
    assert(rate_is::<N>(ane_rd as u64, millis, m.ane_rd_bw));
    assert(rate_is::<N>(ane_wr as u64, millis, m.ane_wr_bw));
}

/// Where arithmetic is exact, the bandwidths that `sample_metrics` reports are bytes per
/// second: of the neural engine, and of the system without it.
pub proof fn bandwidths_are_bytes_per_second<N: Floats>(
    soc: SocInfo,
    channels: Vec<Channel<N::Single>>,
    millis: u64,
    single: spec_fn(N::Single) -> real,
    double: spec_fn(N::Double) -> real,
    m: Metrics<N::Single>,
)
    requires
        exact::<N>(single, double),
        call_ensures(sample_metrics::<N>, (&soc, &channels, millis), Some(m)),
    ensures
        ({
            let sys = moved(channels@, ChannelKind::SysRead);
            let ane = moved(channels@, ChannelKind::AneRead);
            &&& per_second(ane, millis as int, m.ane_rd_bw)
            &&& sys >= ane ==> per_second(sys - ane, millis as int, m.sys_rd_bw)
            &&& sys < ane ==> m.sys_rd_bw == 0
        }),
        ({
            let sys = moved(channels@, ChannelKind::SysWrite);
            let ane = moved(channels@, ChannelKind::AneWrite);
            &&& per_second(ane, millis as int, m.ane_wr_bw)
            &&& sys >= ane ==> per_second(sys - ane, millis as int, m.sys_wr_bw)
            &&& sys < ane ==> m.sys_wr_bw == 0
        }),
{
    system_and_engine_share_the_counters::<N>(soc, channels, millis, m);
    let sys_rd = moved(channels@, ChannelKind::SysRead);
    let ane_rd = moved(channels@, ChannelKind::AneRead);
    let sys_wr = moved(channels@, ChannelKind::SysWrite);
    let ane_wr = moved(channels@, ChannelKind::AneWrite);
    let rd = choose|rest: u64| #[trigger]
        rate_is::<N>(rest, millis, m.sys_rd_bw) && is_rest(sys_rd, ane_rd, rest);
    let wr = choose|rest: u64| #[trigger]
        rate_is::<N>(rest, millis, m.sys_wr_bw) && is_rest(sys_wr, ane_wr, rest);
    rate_of_exact::<N>(rd, millis, m.sys_rd_bw, single, double);
    rate_of_exact::<N>(wr, millis, m.sys_wr_bw, single, double);
    rate_of_exact::<N>(ane_rd as u64, millis, m.ane_rd_bw, single, double);
    rate_of_exact::<N>(ane_wr as u64, millis, m.ane_wr_bw, single, double);
    nothing_moves_at_no_rate(millis as int, m.sys_rd_bw);
    nothing_moves_at_no_rate(millis as int, m.sys_wr_bw);
}

proof fn nothing_moves_at_no_rate(millis: int, r: u64)
    requires
        millis >= 0,
    ensures
        per_second(0, millis, r) ==> r == 0,
{
    if millis > 0 && r > 0 && per_second(0, millis, r) {
        let q = r as int;
        assert((u64::MAX + 1) * millis > 0) by (nonlinear_arith)
            requires
                millis > 0,
        ;
        assert(q * millis > 0) by (nonlinear_arith)
            requires
                millis > 0,
                q > 0,
        ;
    }
}

proof fn watts_of_exact<F>(
    channels: Seq<Channel<F>>,
    kind: ChannelKind,
    f: spec_fn(Channel<F>) -> real,
    single: spec_fn(F) -> real,
)
    requires
        forall|c: Channel<F>| #[trigger]
            f(c) == if is_a(c, kind) {
                single(c.reading->Watts_0)
            } else {
                0 as real
            },
    ensures
        real_total(watts_of(channels, kind), single) == real_total(channels, f),
    decreases channels.len(),
{
    if channels.len() == 0 {
        of_kind_empty(channels, kind);
    } else {
        let before = channels.drop_last();
        let c = channels.last();
        assert(channels =~= before.push(c));
        watts_of_exact(before, kind, f, single);
        of_kind_push(before, c, kind);
        kind_is_described(c, kind);
        assert(watts_of(before, kind).push(c.watts()).drop_last() =~= watts_of(before, kind));
        assert(f(c) == if is_a(c, kind) {
            single(c.reading->Watts_0)
        } else {
            0 as real
        });
    }
}

/// Where arithmetic is exact, the powers that `sample_metrics` reports of processor,
/// graphics unit and neural engine are the sums of what their energy channels say.
pub proof fn powers_add_up_the_channels<N: Floats>(
    soc: SocInfo,
    channels: Vec<Channel<N::Single>>,
    millis: u64,
    single: spec_fn(N::Single) -> real,
    double: spec_fn(N::Double) -> real,
    m: Metrics<N::Single>,
)
    requires
        exact::<N>(single, double),
        call_ensures(sample_metrics::<N>, (&soc, &channels, millis), Some(m)),
    ensures
        single(m.cpu_power) == real_total(
            channels@,
            |c: Channel<N::Single>|
                if is_a(c, ChannelKind::CpuEnergy) {
                    single(c.reading->Watts_0)
                } else {
                    0 as real
                },
        ),
        single(m.gpu_power) == real_total(
            channels@,
            |c: Channel<N::Single>|
                if is_a(c, ChannelKind::GpuEnergy) {
                    single(c.reading->Watts_0)
                } else {
                    0 as real
                },
        ),
        single(m.ane_power) == real_total(
            channels@,
            |c: Channel<N::Single>|
                if is_a(c, ChannelKind::AneEnergy) {
                    single(c.reading->Watts_0)
                } else {
                    0 as real
                },
        ),
{
    let cpu = |c: Channel<N::Single>|
        if is_a(c, ChannelKind::CpuEnergy) {
            single(c.reading->Watts_0)
        } else {
            0 as real
        };
    let gpu = |c: Channel<N::Single>|
        if is_a(c, ChannelKind::GpuEnergy) {
            single(c.reading->Watts_0)
        } else {
            0 as real
        };
    let ane = |c: Channel<N::Single>|
        if is_a(c, ChannelKind::AneEnergy) {
            single(c.reading->Watts_0)
        } else {
            0 as real
        };
    watts_of_exact(channels@, ChannelKind::CpuEnergy, cpu, single);
    watts_of_exact(channels@, ChannelKind::GpuEnergy, gpu, single);
    watts_of_exact(channels@, ChannelKind::AneEnergy, ane, single);
    sum_of_exact(watts_of(channels@, ChannelKind::CpuEnergy), m.cpu_power, single);
    sum_of_exact(watts_of(channels@, ChannelKind::GpuEnergy), m.gpu_power, single);
    sum_of_exact(watts_of(channels@, ChannelKind::AneEnergy), m.ane_power, single);
}

/// What `sample_metrics` does not look at is left at zero.
pub proof fn samples_leave_the_rest_at_zero<N: Floats>(
    soc: SocInfo,
    channels: Vec<Channel<N::Single>>,
    millis: u64,
    m: Metrics<N::Single>,
)
    requires
        call_ensures(sample_metrics::<N>, (&soc, &channels, millis), Some(m)),
    ensures
        m.memory.ram_total == 0 && m.memory.ram_usage == 0,
        m.memory.swap_total == 0 && m.memory.swap_usage == 0,
        call_ensures(<N::Single as Default>::default, (), m.temp.cpu_temp_avg),
        call_ensures(<N::Single as Default>::default, (), m.temp.gpu_temp_avg),
        call_ensures(<N::Single as Default>::default, (), m.all_power),
        call_ensures(<N::Single as Default>::default, (), m.sys_power),
{
}

/// The channels that report `kind`, in order.
pub open spec fn reporting<F>(channels: Seq<Channel<F>>, kind: ChannelKind) -> Seq<Channel<F>> {
    channels.filter(|c: Channel<F>| is_a(c, kind))
}

proof fn reporting_is_of_kind<F>(channels: Seq<Channel<F>>, kind: ChannelKind)
    ensures
        of_kind(channels, kind) == reporting(channels, kind),
    decreases channels.len(),
{
    if channels.len() == 0 {
        reveal_with_fuel(Seq::filter, 1);
    } else {
        let before = channels.drop_last();
        let c = channels.last();
        assert(channels =~= before.push(c));
        reporting_is_of_kind(before, kind);
        of_kind_push(before, c, kind);
        before.lemma_filter_push(c, |c: Channel<F>| is_a(c, kind));
        kind_is_described(c, kind);
    }
}

/// `freq` and `part` are what exact arithmetic gives for the core whose residencies were
/// read from `c`.
pub open spec fn core_says<F>(c: Channel<F>, freqs: Seq<u32>, freq: u32, part: real) -> bool {
    let items = c.reading->Residencies_0@;
    exists|offset: int| #[trigger]
        rests_until(items, offset) && core_law(items, offset, freqs, freq, part)
}

/// `cores` are what exact arithmetic gives for the cores of `found`, one by one.
pub open spec fn cores_say<F>(
    found: Seq<Channel<F>>,
    freqs: Seq<u32>,
    cores: Seq<(u32, real)>,
) -> bool {
    &&& cores.len() == found.len()
    &&& forall|i: int|
        0 <= i < cores.len() ==> core_says(found[i], freqs, (#[trigger] cores[i]).0, cores[i].1)
}

/// `freq` and `part` are what exact arithmetic gives for the cluster with the cores of
/// `found`.
pub open spec fn cluster_says<F>(
    found: Seq<Channel<F>>,
    freqs: Seq<u32>,
    freq: u32,
    part: real,
) -> bool {
    exists|cores: Seq<(u32, real)>| #[trigger]
        cores_say(found, freqs, cores) && cluster_law(cores, freqs[0], freq, part)
}

proof fn core_usage_of_exact<N: Floats>(
    c: Channel<N::Single>,
    freqs: Seq<u32>,
    r: (u32, N::Single),
    single: spec_fn(N::Single) -> real,
    double: spec_fn(N::Double) -> real,
)
    requires
        exact::<N>(single, double),
        freq_data_ok(c.residencies(), freqs),
        freq_is::<N>(c.residencies(), freqs, r),
    ensures
        core_says(c, freqs, r.0, single(r.1)),
{
    let items = c.residencies();
    fitting_tables(items, freqs);
    let offset = choose|offset: int| #[trigger]
        rests_until(items, offset) && offset + freqs.len() <= items.len();
    core_of_exact::<N>(items, offset, freqs, r, single, double);
}

proof fn usage_of_exact<N: Floats>(
    channels: Seq<Channel<N::Single>>,
    kind: ChannelKind,
    freqs: Seq<u32>,
    r: (u32, N::Single),
    single: spec_fn(N::Single) -> real,
    double: spec_fn(N::Double) -> real,
)
    requires
        exact::<N>(single, double),
        channels.len() <= usize::MAX,
        core_data_ok(channels, kind, freqs),
        usage_is::<N>(residencies_of(channels, kind), freqs, r),
    ensures
        cluster_says(reporting(channels, kind), freqs, r.0, single(r.1)),
{
    let lists = residencies_of(channels, kind);
    let found = reporting(channels, kind);
    let pred = |c: Channel<N::Single>| is_a(c, kind);
    reporting_is_of_kind(channels, kind);
    channels.lemma_filter_len(pred);
    let cores = choose|cores: Seq<(u32, N::Single)>| #[trigger]
        cores_are::<N>(lists, freqs, cores) && cluster_freq_is::<N>(cores, freqs, r);
    let exact_cores = cores.map_values(|c: (u32, N::Single)| (c.0, single(c.1)));
    cluster_of_exact::<N>(cores, freqs, r, single, double);
    assert forall|i: int| 0 <= i < exact_cores.len() implies core_says(
        found[i],
        freqs,
        (#[trigger] exact_cores[i]).0,
        exact_cores[i].1,
    ) by {
        assert(freq_is::<N>(lists[i], freqs, cores[i]));
        found_data_ok(channels, kind, freqs, i);
        core_usage_of_exact::<N>(found[i], freqs, cores[i], single, double);
    }
    assert(cores_say(found, freqs, exact_cores));
}

proof fn found_data_ok<F>(channels: Seq<Channel<F>>, kind: ChannelKind, freqs: Seq<u32>, i: int)
    requires
        core_data_ok(channels, kind, freqs),
        0 <= i < reporting(channels, kind).len(),
    ensures
        freq_data_ok(reporting(channels, kind)[i].residencies(), freqs),
{
    let pred = |c: Channel<F>| is_a(c, kind);
    let found = reporting(channels, kind);
    channels.lemma_filter_pred(pred, i);
    channels.lemma_filter_contains_rev(pred, found[i]);
    let k = choose|k: int| 0 <= k < channels.len() && channels[k] == found[i];
    kind_is_described(channels[k], kind);
}

/// Where arithmetic is exact, the frequencies that `sample_metrics` reports of the two
/// kinds of cores, and the parts of the highest ones, are those of the clusters that all
/// channels of such cores make up, each with the table of its kind.
pub proof fn clusters_follow_their_cores<N: Floats>(
    soc: SocInfo,
    channels: Vec<Channel<N::Single>>,
    millis: u64,
    single: spec_fn(N::Single) -> real,
    double: spec_fn(N::Double) -> real,
    m: Metrics<N::Single>,
)
    requires
        exact::<N>(single, double),
        call_ensures(sample_metrics::<N>, (&soc, &channels, millis), Some(m)),
    ensures
        cluster_says(
            reporting(channels@, ChannelKind::EcpuCore),
            soc.ecpu_freqs@,
            m.ecpu_usage.0,
            single(m.ecpu_usage.1),
        ),
        cluster_says(
            reporting(channels@, ChannelKind::PcpuCore),
            soc.pcpu_freqs@,
            m.pcpu_usage.0,
            single(m.pcpu_usage.1),
        ),
{
    assert(channels.len() == channels@.len());
    assert(sample_ok(soc, channels@));
    assert(all_wf(soc, channels@));
    wf_core_data(soc, channels@);
    let s = single;
    let d = double;
    let (ecpu, pcpu) = (soc.ecpu_freqs@, soc.pcpu_freqs@);
    usage_of_exact::<N>(channels@, ChannelKind::EcpuCore, ecpu, m.ecpu_usage, s, d);
    usage_of_exact::<N>(channels@, ChannelKind::PcpuCore, pcpu, m.pcpu_usage, s, d);
}

/// Where arithmetic is exact, the frequency that `sample_metrics` reports of the graphics
/// unit, and the part of the highest one, are those of its last channel, by the table
/// without the first frequency; both are zero where it has no channel.
pub proof fn graphics_follow_their_last_channel<N: Floats>(
    soc: SocInfo,
    channels: Vec<Channel<N::Single>>,
    millis: u64,
    single: spec_fn(N::Single) -> real,
    double: spec_fn(N::Double) -> real,
    m: Metrics<N::Single>,
)
    requires
        exact::<N>(single, double),
        call_ensures(sample_metrics::<N>, (&soc, &channels, millis), Some(m)),
    ensures
        ({
            let found = reporting(channels@, ChannelKind::Gpu);
            &&& found.len() == 0 ==> m.gpu_usage.0 == 0 && single(m.gpu_usage.1) == 0 as real
            &&& found.len() > 0 ==> core_says(
                found[found.len() - 1],
                soc.gpu_freqs@.skip(1),
                m.gpu_usage.0,
                single(m.gpu_usage.1),
            )
        }),
{
    assert(sample_ok(soc, channels@));
    assert(all_wf(soc, channels@));
    wf_core_data(soc, channels@);
    let found = reporting(channels@, ChannelKind::Gpu);
    let lists = residencies_of(channels@, ChannelKind::Gpu);
    let freqs = running(soc.gpu_freqs@);
    reporting_is_of_kind(channels@, ChannelKind::Gpu);
    assert(lists.len() == found.len());
    if found.len() > 0 {
        let end = found.len() - 1;
        found_data_ok(channels@, ChannelKind::Gpu, freqs, end);
        assert(lists.last() == found[end].residencies());
        assert(freqs =~= soc.gpu_freqs@.skip(1));
        core_usage_of_exact::<N>(found[end], freqs, m.gpu_usage, single, double);
    }
}

/// The events that were read from the channels with the bandwidth of the neural engine.
pub open spec fn bandwidth_events<F>(channels: Seq<Channel<F>>) -> Seq<Seq<(String, i64)>> {
    reporting(channels, ChannelKind::AneBandwidth).map_values(
        |c: Channel<F>| c.reading->Residencies_0@,
    )
}

proof fn bandwidth_lists<F>(channels: Seq<Channel<F>>)
    ensures
        residencies_of(channels, ChannelKind::AneBandwidth) == bandwidth_events(channels),
{
    reporting_is_of_kind(channels, ChannelKind::AneBandwidth);
    assert(residencies_of(channels, ChannelKind::AneBandwidth) =~= bandwidth_events(channels));
}

/// The histogram that `sample_metrics` reports counts the events of all channels with the
/// bandwidth of the neural engine, place by place.
pub proof fn histogram_tallies_the_channels<N: Floats>(
    soc: SocInfo,
    channels: Vec<Channel<N::Single>>,
    millis: u64,
    m: Metrics<N::Single>,
)
    requires
        call_ensures(sample_metrics::<N>, (&soc, &channels, millis), Some(m)),
    ensures
        tallies(bandwidth_events(channels@), m.ane_bw_hist@),
{
    assert(sample_ok(soc, channels@));
    bandwidth_lists(channels@);
    lists_are_tallied(bandwidth_events(channels@));
}

/// What was read from `c` is what it reports by its names, and where these are the
/// residencies of a core or of the graphics unit, they fit its table.
pub open spec fn reads_well<F>(soc: SocInfo, c: Channel<F>) -> bool {
    let items = c.reading->Residencies_0@;
    &&& is_a(c, ChannelKind::EcpuCore) ==> c.reading is Residencies && table_fits(
        items,
        soc.ecpu_freqs@,
    )
    &&& is_a(c, ChannelKind::PcpuCore) ==> c.reading is Residencies && table_fits(
        items,
        soc.pcpu_freqs@,
    )
    &&& is_a(c, ChannelKind::Gpu) ==> c.reading is Residencies && soc.gpu_freqs@.len() > 0
        && table_fits(items, soc.gpu_freqs@.skip(1))
    &&& is_a(c, ChannelKind::CpuEnergy) ==> c.reading is Watts
    &&& is_a(c, ChannelKind::GpuEnergy) ==> c.reading is Watts
    &&& is_a(c, ChannelKind::AneEnergy) ==> c.reading is Watts
    &&& is_a(c, ChannelKind::AneRead) ==> c.reading is Bytes
    &&& is_a(c, ChannelKind::AneWrite) ==> c.reading is Bytes
    &&& is_a(c, ChannelKind::SysRead) ==> c.reading is Bytes
    &&& is_a(c, ChannelKind::SysWrite) ==> c.reading is Bytes
    &&& is_a(c, ChannelKind::AneBandwidth) ==> c.reading is Residencies
}

proof fn well_read<F>(soc: SocInfo, c: Channel<F>)
    ensures
        c.wf(soc) <==> reads_well(soc, c),
{
    kind_is_described(c, ChannelKind::EcpuCore);
    kind_is_described(c, ChannelKind::PcpuCore);
    kind_is_described(c, ChannelKind::Gpu);
    kind_is_described(c, ChannelKind::CpuEnergy);
    kind_is_described(c, ChannelKind::GpuEnergy);
    kind_is_described(c, ChannelKind::AneEnergy);
    kind_is_described(c, ChannelKind::AneRead);
    kind_is_described(c, ChannelKind::AneWrite);
    kind_is_described(c, ChannelKind::SysRead);
    kind_is_described(c, ChannelKind::SysWrite);
    kind_is_described(c, ChannelKind::AneBandwidth);
    fitting_tables(c.residencies(), soc.ecpu_freqs@);
    fitting_tables(c.residencies(), soc.pcpu_freqs@);
    fitting_tables(c.residencies(), running(soc.gpu_freqs@));
}

/// `Channel::check` admits a channel exactly where what was read from it is what it reports
/// by its names and fits the chip.
pub proof fn checked_channels_read_well<F>(soc: SocInfo, c: Channel<F>, r: bool)
    requires
        call_ensures(Channel::<F>::check, (&c, &soc), r),
    ensures
        r <==> reads_well(soc, c),
{
    well_read(soc, c);
}

/// `sample_metrics` evaluates a sample exactly where there are frequencies for both kinds
/// of cores, every channel reads well, each of the four counters of bytes fits in 64 bits,
/// and the events can be counted place by place.
pub proof fn only_what_does_not_fit_is_refused<N: Floats>(
    soc: SocInfo,
    channels: Vec<Channel<N::Single>>,
    millis: u64,
    r: Option<Metrics<N::Single>>,
)
    requires
        call_ensures(sample_metrics::<N>, (&soc, &channels, millis), r),
    ensures
        r is Some <==> {
            &&& soc.ecpu_freqs@.len() > 0
            &&& soc.pcpu_freqs@.len() > 0
            &&& forall|i: int|
                0 <= i < channels@.len() ==> #[trigger] reads_well(soc, channels@[i])
            &&& moved(channels@, ChannelKind::AneRead) <= u64::MAX
            &&& moved(channels@, ChannelKind::AneWrite) <= u64::MAX
            &&& moved(channels@, ChannelKind::SysRead) <= u64::MAX
            &&& moved(channels@, ChannelKind::SysWrite) <= u64::MAX
            &&& can_be_tallied(bandwidth_events(channels@))
        },
{
    bytes_are_moved(channels@, ChannelKind::AneRead);
    bytes_are_moved(channels@, ChannelKind::AneWrite);
    bytes_are_moved(channels@, ChannelKind::SysRead);
    bytes_are_moved(channels@, ChannelKind::SysWrite);
    bandwidth_lists(channels@);
    lists_are_tallied(bandwidth_events(channels@));
    assert((forall|i: int| 0 <= i < channels@.len() ==> #[trigger] channels@[i].wf(soc)) <==> (
    forall|i: int| 0 <= i < channels@.len() ==> #[trigger] reads_well(soc, channels@[i]))) by {
        if forall|i: int| 0 <= i < channels@.len() ==> #[trigger] channels@[i].wf(soc) {
            assert forall|i: int| 0 <= i < channels@.len() implies #[trigger] reads_well(
                soc,
                channels@[i],
            ) by {
                assert(channels@[i].wf(soc));
                well_read(soc, channels@[i]);
            }
        }
        if forall|i: int| 0 <= i < channels@.len() ==> #[trigger] reads_well(soc, channels@[i]) {
            assert forall|i: int| 0 <= i < channels@.len() implies #[trigger] channels@[i].wf(
                soc,
            ) by {
                assert(reads_well(soc, channels@[i]));
                well_read(soc, channels@[i]);
            }
        }
    }
}

/// Any sample can be handed to `sample_metrics`, whatever was read.
pub proof fn any_sample_can_be_tried<N: Floats>(
    soc: SocInfo,
    channels: Vec<Channel<N::Single>>,
    bytes: u64,
    millis: u64,
)
    requires
        total::<N>(),
    ensures
        call_requires(sample_metrics::<N>, (&soc, &channels, millis)),
        call_requires(bytes_per_second::<N>, (bytes, millis)),
        forall|c: Channel<N::Single>| #[trigger]
            call_requires(Channel::<N::Single>::check, (&c, &soc)),
{
}

/// The powers that `sample_metrics` reports of processor, graphics unit and neural engine
/// are added up in the order of the channels.
pub proof fn powers_are_added_in_order<N: Floats>(
    soc: SocInfo,
    channels: Vec<Channel<N::Single>>,
    millis: u64,
    m: Metrics<N::Single>,
)
    requires
        call_ensures(sample_metrics::<N>, (&soc, &channels, millis), Some(m)),
    ensures
        sum_is(
            reporting(channels@, ChannelKind::CpuEnergy).map_values(
                |c: Channel<N::Single>| c.reading->Watts_0,
            ),
            m.cpu_power,
        ),
        sum_is(
            reporting(channels@, ChannelKind::GpuEnergy).map_values(
                |c: Channel<N::Single>| c.reading->Watts_0,
            ),
            m.gpu_power,
        ),
        sum_is(
            reporting(channels@, ChannelKind::AneEnergy).map_values(
                |c: Channel<N::Single>| c.reading->Watts_0,
            ),
            m.ane_power,
        ),
{
    let watts = |c: Channel<N::Single>| c.reading->Watts_0;
    reporting_is_of_kind(channels@, ChannelKind::CpuEnergy);
    reporting_is_of_kind(channels@, ChannelKind::GpuEnergy);
    reporting_is_of_kind(channels@, ChannelKind::AneEnergy);
    assert(watts_of(channels@, ChannelKind::CpuEnergy) =~= reporting(
        channels@,
        ChannelKind::CpuEnergy,
    ).map_values(watts));
    assert(watts_of(channels@, ChannelKind::GpuEnergy) =~= reporting(
        channels@,
        ChannelKind::GpuEnergy,
    ).map_values(watts));
    assert(watts_of(channels@, ChannelKind::AneEnergy) =~= reporting(
        channels@,
        ChannelKind::AneEnergy,
    ).map_values(watts));
}

/// `bytes_per_second` divides the bytes once, by the seconds that the milliseconds are.
pub proof fn bytes_are_divided_by_seconds<N: Floats>(bytes: u64, millis: u64, r: u64)
    requires
        call_ensures(bytes_per_second::<N>, (bytes, millis), r),
    ensures
        exists|
            amount: N::Double,
            time: N::Double,
            thousand: N::Double,
            seconds: N::Double,
            rate: N::Double,
        |
            {
                &&& call_ensures(N::double_of_u64, (millis,), time)
                &&& call_ensures(N::double_of_u64, (1000,), thousand)
                &&& #[trigger] call_ensures(<N::Double as Div>::div, (time, thousand), seconds)
                &&& call_ensures(N::double_of_u64, (bytes,), amount)
                &&& #[trigger] zero_div_is(amount, seconds, rate)
                &&& call_ensures(N::u64_of_double, (rate,), r)
            },
{
    let (amount, time, thousand, seconds, rate) = choose|
        amount: N::Double,
        time: N::Double,
        thousand: N::Double,
        seconds: N::Double,
        rate: N::Double,
    | rate_steps::<N>(bytes, millis, amount, time, thousand, seconds, rate, r);
    assert(call_ensures(<N::Double as Div>::div, (time, thousand), seconds));
    assert(zero_div_is(amount, seconds, rate));
}

} // verus!
