//! The channels of a performance report: which ones are subscribed to and what each one
//! is good for.
use crate::text::{
    contains, ends_with, equal, has_part, put_together, starts_with,
    texts_are_put_together_from_parts,
};
use vstd::prelude::*;

verus! {

/// The subgroup with the residencies of each processor core.
pub const CPU_FREQ_CORE_SUBG: &'static str = "CPU Core Performance States";

/// The subgroup with the residencies of the graphics unit.
pub const GPU_FREQ_DICE_SUBG: &'static str = "GPU Performance States";

/// The texts of a group to subscribe to and of the subgroup, where only one of them is
/// wanted.
pub open spec fn subscription_text(
    s: (&'static str, Option<&'static str>),
) -> (Seq<char>, Option<Seq<char>>) {
    (
        s.0@,
        match s.1 {
            Some(subgroup) => Some(subgroup@),
            None => None,
        },
    )
}

/// What is subscribed to: energy of processor, graphics and neural units; residencies of
/// processor cores and of the graphics unit; memory traffic; and the histogram of fabric
/// bandwidth.
pub open spec fn subscribed() -> Seq<(Seq<char>, Option<Seq<char>>)> {
    seq![
        ("Energy Model"@, None),
        ("CPU Stats"@, Some(CPU_FREQ_CORE_SUBG@)),
        ("GPU Stats"@, Some(GPU_FREQ_DICE_SUBG@)),
        ("AMC Stats"@, Some("Perf Counters"@)),
        ("PMP"@, Some("AF BW"@)),
    ]
}

/// The groups to subscribe to, each with the subgroup where only one of them is wanted.
pub fn subscriptions() -> (r: Vec<(&'static str, Option<&'static str>)>)
    ensures
        r@.map_values(|s: (&'static str, Option<&'static str>)| subscription_text(s))
            == subscribed(),
{
    let r: Vec<(&'static str, Option<&'static str>)> = vec![
        ("Energy Model", None),
        ("CPU Stats", Some(CPU_FREQ_CORE_SUBG)),
        ("GPU Stats", Some(GPU_FREQ_DICE_SUBG)),
        ("AMC Stats", Some("Perf Counters")),
        ("PMP", Some("AF BW")),
    ];
    assert(r@.map_values(|s: (&'static str, Option<&'static str>)| subscription_text(s))
        =~= subscribed());
    r
}

/// What a channel reports.
#[derive(Debug, Clone, Copy, PartialEq, Eq, Structural)]
pub enum ChannelKind {
    /// The residencies of an efficiency core.
    EcpuCore,
    /// The residencies of a performance core.
    PcpuCore,
    /// The residencies of the graphics unit.
    Gpu,
    /// The energy of the processor.
    CpuEnergy,
    /// The energy of the graphics unit.
    GpuEnergy,
    /// The energy of the neural engine.
    AneEnergy,
    /// The bytes that the neural engine read.
    AneRead,
    /// The bytes that the neural engine wrote.
    AneWrite,
    /// The bytes that the whole system read, those of the neural engine included.
    SysRead,
    /// The bytes that the whole system wrote, those of the neural engine included.
    SysWrite,
    /// The histogram of the bandwidth of the neural engine.
    AneBandwidth,
    /// Nothing that is used.
    Other,
}

/// What the channel `channel` in `subgroup` of `group` reports.
pub open spec fn kind_of(
    group: Seq<char>,
    subgroup: Seq<char>,
    channel: Seq<char>,
) -> ChannelKind {
    let ane = "ANE"@.is_prefix_of(channel);
    if group == "CPU Stats"@ && subgroup == CPU_FREQ_CORE_SUBG@ {
        if has_part(channel, "ECPU"@) {
            ChannelKind::EcpuCore
        } else if has_part(channel, "PCPU"@) {
            ChannelKind::PcpuCore
        } else {
            ChannelKind::Other
        }
    } else if group == "GPU Stats"@ && subgroup == GPU_FREQ_DICE_SUBG@ && channel == "GPUPH"@ {
        ChannelKind::Gpu
    } else if group == "Energy Model"@ {
        if channel == "CPU Energy"@ {
            ChannelKind::CpuEnergy
        } else if channel == "GPU Energy"@ {
            ChannelKind::GpuEnergy
        } else if ane {
            ChannelKind::AneEnergy
        } else {
            ChannelKind::Other
        }
    } else if group == "AMC Stats"@ && subgroup == "Perf Counters"@ {
        if ane && "DCS RD"@.is_suffix_of(channel) {
            ChannelKind::AneRead
        } else if ane && "DCS WR"@.is_suffix_of(channel) {
            ChannelKind::AneWrite
        } else if channel == "DCS RD"@ {
            ChannelKind::SysRead
        } else if channel == "DCS WR"@ {
            ChannelKind::SysWrite
        } else {
            ChannelKind::Other
        }
    } else if group == "PMP"@ && subgroup == "AF BW"@ && ane && "RD+WR"@.is_suffix_of(channel) {
        ChannelKind::AneBandwidth
    } else {
        ChannelKind::Other
    }
}

/// What the channel `channel` in `subgroup` of `group` reports.
///
/// The neural engine has two counters in each direction. The one of the memory command
/// scheduler (`DCS`) is used: it comes closer to what a model of known size should move,
/// and only it has a counterpart for the whole system.
pub fn classify(group: &str, subgroup: &str, channel: &str) -> (r: ChannelKind)
    ensures
        r == kind_of(group@, subgroup@, channel@),
{
    if equal(group, "CPU Stats") && equal(subgroup, CPU_FREQ_CORE_SUBG) {
        if contains(channel, "ECPU") {
            ChannelKind::EcpuCore
        } else if contains(channel, "PCPU") {
            ChannelKind::PcpuCore
        } else {
            ChannelKind::Other
        }
    } else if equal(group, "GPU Stats") && equal(subgroup, GPU_FREQ_DICE_SUBG) && equal(
        channel,
        "GPUPH",
    ) {
        ChannelKind::Gpu
    } else if equal(group, "Energy Model") {
        if equal(channel, "CPU Energy") {
            ChannelKind::CpuEnergy
        } else if equal(channel, "GPU Energy") {
            ChannelKind::GpuEnergy
        } else if starts_with(channel, "ANE") {
            ChannelKind::AneEnergy
        } else {
            ChannelKind::Other
        }
    } else if equal(group, "AMC Stats") && equal(subgroup, "Perf Counters") {
        if starts_with(channel, "ANE") && ends_with(channel, "DCS RD") {
            ChannelKind::AneRead
        } else if starts_with(channel, "ANE") && ends_with(channel, "DCS WR") {
            ChannelKind::AneWrite
        } else if equal(channel, "DCS RD") {
            ChannelKind::SysRead
        } else if equal(channel, "DCS WR") {
            ChannelKind::SysWrite
        } else {
            ChannelKind::Other
        }
    } else if equal(group, "PMP") && equal(subgroup, "AF BW") && starts_with(channel, "ANE")
        && ends_with(channel, "RD+WR") {
        ChannelKind::AneBandwidth
    } else {
        ChannelKind::Other
    }
}

/// `subgroup` of `group` is subscribed to.
pub open spec fn is_subscribed(group: Seq<char>, subgroup: Seq<char>) -> bool {
    exists|i: int|
        0 <= i < subscribed().len() && {
            let (g, s) = #[trigger] subscribed()[i];
            g == group && (s is None || s == Some(subgroup))
        }
}

/// Every channel that is used belongs to a subgroup that is subscribed to.
pub proof fn used_channels_are_subscribed(
    group: Seq<char>,
    subgroup: Seq<char>,
    channel: Seq<char>,
)
    requires
        kind_of(group, subgroup, channel) != ChannelKind::Other,
    ensures
        is_subscribed(group, subgroup),
{
    let s = subscribed();
    assert(s[0].0 == "Energy Model"@ && s[1].0 == "CPU Stats"@ && s[2].0 == "GPU Stats"@ && s[3].0
        == "AMC Stats"@ && s[4].0 == "PMP"@);
}

/// Every group and subgroup that is subscribed to has a channel that is used.
pub proof fn subscribed_channels_are_used(group: Seq<char>, subgroup: Seq<char>)
    requires
        is_subscribed(group, subgroup),
    ensures
        exists|channel: Seq<char>|
            #[trigger] kind_of(group, subgroup, channel) != ChannelKind::Other,
{
    reveal_strlit("CPU Stats");
    reveal_strlit("GPU Stats");
    reveal_strlit("Energy Model");
    reveal_strlit("AMC Stats");
    reveal_strlit("PMP");
    reveal_strlit("AF BW");
    reveal_strlit("ANE RD+WR");
    reveal_strlit("ANE");
    reveal_strlit("RD+WR");
    let i = choose|i: int|
        0 <= i < subscribed().len() && {
            let (g, s) = #[trigger] subscribed()[i];
            g == group && (s is None || s == Some(subgroup))
        };
    assert("CPU Stats"@[0] == 'C' && "GPU Stats"@[0] == 'G' && "Energy Model"@[0] == 'E'
        && "AMC Stats"@[0] == 'A' && "PMP"@[0] == 'P');
    if i == 0 {
        assert(kind_of(group, subgroup, "CPU Energy"@) == ChannelKind::CpuEnergy);
    } else if i == 1 {
        assert("ECPU"@.subrange(0, "ECPU"@.len() as int) =~= "ECPU"@);
        assert(crate::text::stands_at("ECPU"@, "ECPU"@, 0));
        assert(kind_of(group, subgroup, "ECPU"@) == ChannelKind::EcpuCore);
    } else if i == 2 {
        assert(kind_of(group, subgroup, "GPUPH"@) == ChannelKind::Gpu);
    } else if i == 3 {
        assert(kind_of(group, subgroup, "DCS RD"@) != ChannelKind::Other);
    } else {
        assert("ANE"@ =~= "ANE RD+WR"@.subrange(0, 3));
        assert("RD+WR"@ =~= "ANE RD+WR"@.subrange(4, 9));
        assert(kind_of(group, subgroup, "ANE RD+WR"@) == ChannelKind::AneBandwidth);
    }
}

/// A channel of a group that is none of those subscribed to is not used.
pub proof fn other_groups_are_unused(group: Seq<char>, subgroup: Seq<char>, channel: Seq<char>)
    requires
        !is_subscribed(group, subgroup),
    ensures
        kind_of(group, subgroup, channel) == ChannelKind::Other,
{
    if kind_of(group, subgroup, channel) != ChannelKind::Other {
        used_channels_are_subscribed(group, subgroup, channel);
    }
}

/// Of the memory counters, only those of the command scheduler are used: a channel whose
/// name does not end with `DCS RD` or `DCS WR` is not.
pub proof fn only_scheduler_counters_are_used(subgroup: Seq<char>, channel: Seq<char>)
    requires
        !"DCS RD"@.is_suffix_of(channel),
        !"DCS WR"@.is_suffix_of(channel),
    ensures
        kind_of("AMC Stats"@, subgroup, channel) == ChannelKind::Other,
{
    reveal_strlit("CPU Stats");
    reveal_strlit("GPU Stats");
    reveal_strlit("Energy Model");
    reveal_strlit("AMC Stats");
    reveal_strlit("PMP");
    assert("CPU Stats"@[0] == 'C' && "GPU Stats"@[0] == 'G' && "Energy Model"@[0] == 'E'
        && "AMC Stats"@[0] == 'A' && "PMP"@[0] == 'P');
    assert(channel.subrange(0, channel.len() as int) =~= channel);
}

/// By its names a channel reports what `kind` says.
pub open spec fn described(
    kind: ChannelKind,
    group: Seq<char>,
    subgroup: Seq<char>,
    channel: Seq<char>,
) -> bool {
    let cores = group == "CPU Stats"@ && subgroup == "CPU Core Performance States"@;
    let counters = group == "AMC Stats"@ && subgroup == "Perf Counters"@;
    let engine = "ANE"@.is_prefix_of(channel);
    match kind {
        ChannelKind::EcpuCore => cores && put_together(channel, "ECPU"@),
        ChannelKind::PcpuCore => cores && put_together(channel, "PCPU"@) && !put_together(
            channel,
            "ECPU"@,
        ),
        ChannelKind::Gpu => group == "GPU Stats"@ && subgroup == "GPU Performance States"@
            && channel == "GPUPH"@,
        ChannelKind::CpuEnergy => group == "Energy Model"@ && channel == "CPU Energy"@,
        ChannelKind::GpuEnergy => group == "Energy Model"@ && channel == "GPU Energy"@,
        ChannelKind::AneEnergy => group == "Energy Model"@ && engine,
        ChannelKind::AneRead => counters && engine && "DCS RD"@.is_suffix_of(channel),
        ChannelKind::AneWrite => counters && engine && "DCS WR"@.is_suffix_of(channel),
        ChannelKind::SysRead => counters && channel == "DCS RD"@,
        ChannelKind::SysWrite => counters && channel == "DCS WR"@,
        ChannelKind::AneBandwidth => group == "PMP"@ && subgroup == "AF BW"@ && engine
            && "RD+WR"@.is_suffix_of(channel),
        ChannelKind::Other => !is_described(group, subgroup, channel),
    }
}

/// By its names a channel reports something that is used.
pub open spec fn is_described(
    group: Seq<char>,
    subgroup: Seq<char>,
    channel: Seq<char>,
) -> bool {
    let cores = group == "CPU Stats"@ && subgroup == "CPU Core Performance States"@;
    let counters = group == "AMC Stats"@ && subgroup == "Perf Counters"@;
    let engine = "ANE"@.is_prefix_of(channel);
    ||| cores && (put_together(channel, "ECPU"@) || put_together(channel, "PCPU"@))
    ||| group == "GPU Stats"@ && subgroup == "GPU Performance States"@ && channel == "GPUPH"@
    ||| group == "Energy Model"@ && (engine || channel == "CPU Energy"@ || channel
        == "GPU Energy"@)
    ||| counters && engine && ("DCS RD"@.is_suffix_of(channel) || "DCS WR"@.is_suffix_of(channel))
    ||| counters && (channel == "DCS RD"@ || channel == "DCS WR"@)
    ||| group == "PMP"@ && subgroup == "AF BW"@ && engine && "RD+WR"@.is_suffix_of(channel)
}

pub(crate) proof fn kinds_are_described(
    group: Seq<char>,
    subgroup: Seq<char>,
    channel: Seq<char>,
    kind: ChannelKind,
)
    ensures
        kind_of(group, subgroup, channel) == kind <==> described(kind, group, subgroup, channel),
{
    reveal_strlit("CPU Stats");
    reveal_strlit("GPU Stats");
    reveal_strlit("Energy Model");
    reveal_strlit("AMC Stats");
    reveal_strlit("PMP");
    reveal_strlit("ANE");
    reveal_strlit("CPU Energy");
    reveal_strlit("GPU Energy");
    reveal_strlit("DCS RD");
    reveal_strlit("DCS WR");
    assert("CPU Stats"@[0] == 'C' && "GPU Stats"@[0] == 'G' && "Energy Model"@[0] == 'E'
        && "AMC Stats"@[0] == 'A' && "PMP"@[0] == 'P');
    assert("CPU Energy"@[0] == 'C' && "GPU Energy"@[0] == 'G');
    assert("DCS RD"@[5] == 'D' && "DCS WR"@[5] == 'R' && "DCS RD"@[0] == 'D' && "DCS WR"@[0]
        == 'D');
    texts_are_put_together_from_parts(channel, "ECPU"@);
    texts_are_put_together_from_parts(channel, "PCPU"@);
    if "ANE"@.is_prefix_of(channel) {
        assert(channel.subrange(0, 3)[0] == 'A');
        assert(channel[0] == 'A');
    }
    let len = channel.len() as int;
    if "DCS RD"@.is_suffix_of(channel) {
        assert(channel.subrange(len - 6, len)[5] == 'D');
        assert(channel[len - 1] == 'D');
    }
    if "DCS WR"@.is_suffix_of(channel) {
        assert(channel.subrange(len - 6, len)[5] == 'R');
        assert(channel[len - 1] == 'R');
    }
}

/// `classify` says of a channel what its names describe, and of no channel anything else.
pub proof fn classify_follows_the_names(
    group: &str,
    subgroup: &str,
    channel: &str,
    kind: ChannelKind,
    r: ChannelKind,
)
    requires
        call_ensures(classify, (group, subgroup, channel), r),
    ensures
        r == kind <==> described(kind, group@, subgroup@, channel@),
{
    kinds_are_described(group@, subgroup@, channel@, kind);
}

/// `subgroup` of `group` may have a channel that is used.
pub open spec fn is_worth_it(group: Seq<char>, subgroup: Seq<char>) -> bool {
    exists|channel: Seq<char>| #[trigger] is_described(group, subgroup, channel)
}

/// What `subscriptions` names is just enough: it takes in every channel that is used, and no
/// subgroup without one. No group is named twice.
pub proof fn subscriptions_are_just_enough(r: Vec<(&'static str, Option<&'static str>)>)
    requires
        call_ensures(subscriptions, (), r),
    ensures
        forall|group: Seq<char>, subgroup: Seq<char>, channel: Seq<char>| #[trigger]
            is_described(group, subgroup, channel) ==> exists|i: int|
                0 <= i < r@.len() && (#[trigger] r@[i]).0@ == group && (r@[i].1 is None
                    || r@[i].1->0@ == subgroup),
        forall|i: int, subgroup: Seq<char>|
            0 <= i < r@.len() && (r@[i].1 is None || r@[i].1->0@ == subgroup)
                ==> #[trigger] is_worth_it((#[trigger] r@[i]).0@, subgroup),
        forall|i: int, j: int|
            0 <= i < j < r@.len() ==> (#[trigger] r@[i]).0@ != (#[trigger] r@[j]).0@,
{
    let texts = r@.map_values(|s: (&'static str, Option<&'static str>)| subscription_text(s));
    assert(texts == subscribed());
    assert(texts.len() == r@.len());
    assert forall|i: int| 0 <= i < r@.len() implies texts[i] == subscription_text(
        #[trigger] r@[i],
    ) by {}
    assert forall|group: Seq<char>, subgroup: Seq<char>, channel: Seq<char>| #[trigger]
        is_described(group, subgroup, channel) implies exists|i: int|
        0 <= i < r@.len() && (#[trigger] r@[i]).0@ == group && (r@[i].1 is None || r@[i].1->0@
            == subgroup) by {
        kinds_are_described(group, subgroup, channel, ChannelKind::Other);
        used_channels_are_subscribed(group, subgroup, channel);
        let i = choose|i: int|
            0 <= i < subscribed().len() && {
                let (g, s) = #[trigger] subscribed()[i];
                g == group && (s is None || s == Some(subgroup))
            };
        assert(texts[i] == subscription_text(r@[i]));
    }
    assert forall|i: int, subgroup: Seq<char>|
        0 <= i < r@.len() && (r@[i].1 is None || r@[i].1->0@
            == subgroup) implies #[trigger] is_worth_it((#[trigger] r@[i]).0@, subgroup) by {
        let group = r@[i].0@;
        assert(texts[i] == subscription_text(r@[i]));
        let (g, s) = subscribed()[i];
        assert(g == group && (s is None || s == Some(subgroup)));
        subscribed_channels_are_used(group, subgroup);
        let channel = choose|channel: Seq<char>|
            #[trigger] kind_of(group, subgroup, channel) != ChannelKind::Other;
        kinds_are_described(group, subgroup, channel, ChannelKind::Other);
        assert(is_described(group, subgroup, channel));
    }
    assert forall|i: int, j: int| 0 <= i < j < r@.len() implies (#[trigger] r@[i]).0@ != (
    #[trigger] r@[j]).0@ by {
        reveal_strlit("CPU Stats");
        reveal_strlit("GPU Stats");
        reveal_strlit("Energy Model");
        reveal_strlit("AMC Stats");
        reveal_strlit("PMP");
        assert("CPU Stats"@[0] == 'C' && "GPU Stats"@[0] == 'G' && "Energy Model"@[0] == 'E'
            && "AMC Stats"@[0] == 'A' && "PMP"@[0] == 'P');
        assert(texts[i] == subscription_text(r@[i]));
        assert(texts[j] == subscription_text(r@[j]));
        assert(texts[i].0 == subscribed()[i].0 && texts[j].0 == subscribed()[j].0);
    }
}

} // verus!
