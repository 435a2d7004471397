use macmon::channel::{classify, subscriptions, ChannelKind, CPU_FREQ_CORE_SUBG, GPU_FREQ_DICE_SUBG};
use macmon::sample::SocInfo;
use macmon::sampler::TempSource;
use macmon::smc::{init_smc, word, KeyInfo, SmcProbe, FLOAT_TYPE, SYS_POWER_KEY};
use macmon::text::{contains, ends_with, equal, starts_with};
use macmon::{zero_div, Sampler};

fn probe(name: &str, size: u32, kind: u32, readable: bool) -> SmcProbe {
    let info = Some(KeyInfo { data_size: size, data_type: kind });
    SmcProbe { name: name.to_string(), info, readable }
}

fn soc() -> SocInfo {
    SocInfo { ecpu_freqs: vec![600], pcpu_freqs: vec![700], gpu_freqs: vec![0, 300] }
}

#[test]
fn zero_div_of_integers() {
    assert_eq!(zero_div(7u64, 2), 3);
    assert_eq!(zero_div(7u64, 0), 0);
    assert_eq!(zero_div(7u32, 4), 1);
    assert_eq!(zero_div(0u32, 0), 0);
}

#[test]
fn zero_div_of_floats() {
    assert_eq!(zero_div(7.0f32, 2.0), 3.5);
    assert_eq!(zero_div(7.0f32, 0.0), 0.0);
    assert_eq!(zero_div(7.0f64, -0.0), 0.0);
    assert!(zero_div(7.0f64, f64::NAN).is_nan());
}

#[test]
fn texts_are_compared_by_characters() {
    assert!(equal("", "") && equal("flt \u{e9}", "flt \u{e9}"));
    assert!(!equal("a", "b") && !equal("a", "ab"));
    assert!(starts_with("ANE0 RD", "ANE") && starts_with("ANE", "") && !starts_with("AN", "ANE"));
    assert!(!starts_with("xANE", "ANE"));
    assert!(ends_with("ANE0 RD", "RD") && ends_with("RD", "RD") && !ends_with("D", "RD"));
    assert!(!ends_with("RDx", "RD"));
    assert!(contains("xECPU0", "ECPU") && contains("ECPU", "ECPU") && contains("ab", ""));
    assert!(!contains("ECP", "ECPU") && !contains("E C P U", "ECPU"));
}

#[test]
fn cpu_channels() {
    let kind = |c| classify("CPU Stats", CPU_FREQ_CORE_SUBG, c);
    assert_eq!(kind("ECPU010"), ChannelKind::EcpuCore);
    assert_eq!(kind("DIE_0_PCPU1"), ChannelKind::PcpuCore);
    assert_eq!(kind("PCPU ECPU"), ChannelKind::EcpuCore);
    assert_eq!(kind("CPU"), ChannelKind::Other);
    assert_eq!(classify("CPU Stats", "CPU Complex Performance States", "ECPU"), ChannelKind::Other);
}

#[test]
fn gpu_channels() {
    let kind = |c| classify("GPU Stats", GPU_FREQ_DICE_SUBG, c);
    assert_eq!(kind("GPUPH"), ChannelKind::Gpu);
    assert_eq!(kind("GPUPH1"), ChannelKind::Other);
    assert_eq!(classify("GPU Stats", "", "GPUPH"), ChannelKind::Other);
}

#[test]
fn energy_channels() {
    let kind = |c| classify("Energy Model", "anything", c);
    assert_eq!(kind("CPU Energy"), ChannelKind::CpuEnergy);
    assert_eq!(kind("GPU Energy"), ChannelKind::GpuEnergy);
    assert_eq!(kind("ANE0"), ChannelKind::AneEnergy);
    assert_eq!(kind("CPU Energy 2"), ChannelKind::Other);
}

#[test]
fn memory_channels() {
    let kind = |c| classify("AMC Stats", "Perf Counters", c);
    assert_eq!(kind("ANE0 DCS RD"), ChannelKind::AneRead);
    assert_eq!(kind("ANE0 DCS WR"), ChannelKind::AneWrite);
    assert_eq!(kind("ANE0 RD"), ChannelKind::Other);
    assert_eq!(kind("DCS RD"), ChannelKind::SysRead);
    assert_eq!(kind("DCS WR"), ChannelKind::SysWrite);
    assert_eq!(kind("GFX DCS RD"), ChannelKind::Other);
    assert_eq!(classify("AMC Stats", "", "DCS RD"), ChannelKind::Other);
}

#[test]
fn histogram_channels() {
    assert_eq!(classify("PMP", "AF BW", "ANE0 RD+WR"), ChannelKind::AneBandwidth);
    assert_eq!(classify("PMP", "AF BW", "ANE0 RD"), ChannelKind::Other);
    assert_eq!(classify("PMP", "DCS BW", "ANE0 RD+WR"), ChannelKind::Other);
    assert_eq!(classify("", "", ""), ChannelKind::Other);
}

#[test]
fn every_used_channel_is_subscribed_to() {
    let subscribed = subscriptions();
    assert_eq!(
        subscribed,
        vec![
            ("Energy Model", None),
            ("CPU Stats", Some("CPU Core Performance States")),
            ("GPU Stats", Some("GPU Performance States")),
            ("AMC Stats", Some("Perf Counters")),
            ("PMP", Some("AF BW")),
        ]
    );
    for (group, subgroup, channel) in [
        ("Energy Model", "x", "ANE"),
        ("CPU Stats", CPU_FREQ_CORE_SUBG, "ECPU"),
        ("GPU Stats", GPU_FREQ_DICE_SUBG, "GPUPH"),
        ("AMC Stats", "Perf Counters", "DCS RD"),
        ("PMP", "AF BW", "ANE RD+WR"),
    ] {
        assert_ne!(classify(group, subgroup, channel), ChannelKind::Other);
        assert!(subscribed.iter().any(|s| s.0 == group && (s.1.is_none() || s.1 == Some(subgroup))));
    }
}

#[test]
fn sensors_are_readable_floats_with_the_right_prefix() {
    let probes = vec![
        probe("Tp01", 4, FLOAT_TYPE, true),
        probe("Tg01", 4, FLOAT_TYPE, true),
        probe("Tp02", 8, FLOAT_TYPE, true),
        probe("Tp03", 4, 0, true),
        probe("Tp04", 4, FLOAT_TYPE, false),
        probe("PSTR", 4, FLOAT_TYPE, true),
        SmcProbe { name: "Tp05".to_string(), info: None, readable: true },
        probe("Tp06", 4, FLOAT_TYPE, true),
        probe("tp07", 4, FLOAT_TYPE, true),
    ];
    let (cpu, gpu) = init_smc(&probes);
    assert_eq!(cpu, vec!["Tp01", "Tp06"]);
    assert_eq!(gpu, vec!["Tg01"]);
}

#[test]
fn float_type_is_spelled_flt() {
    assert_eq!(FLOAT_TYPE.to_be_bytes(), *b"flt ");
    assert!(KeyInfo { data_size: 4, data_type: FLOAT_TYPE }.is_float());
    assert!(!KeyInfo { data_size: 2, data_type: FLOAT_TYPE }.is_float());
    assert!(!KeyInfo { data_size: 4, data_type: FLOAT_TYPE + 1 }.is_float());
}

#[test]
fn words_have_the_lowest_byte_first() {
    assert_eq!(word(&vec![0x78, 0x56, 0x34, 0x12]), 0x1234_5678);
    assert_eq!(word(&vec![0xff, 0xff, 0xff, 0xff, 0x01]), u32::MAX);
}

#[test]
fn sampler_reads_the_controller_where_it_has_cpu_sensors() {
    let s = Sampler::new(soc(), &vec![probe("Tp01", 4, FLOAT_TYPE, true)]);
    assert_eq!(s.smc_cpu_keys, vec!["Tp01"]);
    assert_eq!(s.temp_source(), TempSource::Smc);
    let s = Sampler::new(soc(), &vec![probe("Tg01", 4, FLOAT_TYPE, true)]);
    assert_eq!(s.smc_gpu_keys, vec!["Tg01"]);
    assert_eq!(s.temp_source(), TempSource::Hid);
    assert_eq!(s.soc.gpu_freqs, vec![0, 300]);
}

#[test]
fn memory_comes_as_usage_then_total() {
    let m = Sampler::get_mem((1, 2), (3, 4));
    assert_eq!((m.ram_usage, m.ram_total, m.swap_usage, m.swap_total), (1, 2, 3, 4));
}

#[test]
fn system_power_has_a_key_of_its_own() {
    assert_eq!(SYS_POWER_KEY, "PSTR");
    let (cpu, gpu) = init_smc(&vec![probe(SYS_POWER_KEY, 4, FLOAT_TYPE, true)]);
    assert!(cpu.is_empty() && gpu.is_empty());
}
