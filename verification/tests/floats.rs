use macmon::arith::{larger, share, sum, Floats};
use macmon::channel::{CPU_FREQ_CORE_SUBG, GPU_FREQ_DICE_SUBG};
use macmon::freq::{active_offset, calc_freq, calc_freq_final, check_freq_data};
use macmon::sample::{bytes_per_second, sample_metrics, Channel, Reading, SocInfo};
use macmon::sampler::Sample;
use macmon::summary::{summarize, MEASURES};
use macmon::temperature::{get_temp_hid, get_temp_smc};
use macmon::{MemMetrics, MetricHistogram, Metrics, Sampler, TempMetrics};

struct Ieee;

impl Floats for Ieee {
    type Single = f32;
    type Double = f64;

    fn single_of_u32(x: u32) -> f32 {
        x as f32
    }

    fn single_of_usize(x: usize) -> f32 {
        x as f32
    }

    fn single_of_bits(bits: u32) -> f32 {
        f32::from_bits(bits)
    }

    fn single_of_double(x: f64) -> f32 {
        x as f32
    }

    fn double_of_u32(x: u32) -> f64 {
        x as f64
    }

    fn double_of_i64(x: i64) -> f64 {
        x as f64
    }

    fn double_of_u64(x: u64) -> f64 {
        x as f64
    }

    fn u32_of_single(x: f32) -> u32 {
        x as u32
    }

    fn u32_of_double(x: f64) -> u32 {
        x as u32
    }

    fn u64_of_double(x: f64) -> u64 {
        x as u64
    }
}

fn states(items: &[(&str, i64)]) -> Vec<(String, i64)> {
    items.iter().map(|e| (e.0.to_string(), e.1)).collect()
}

fn channel(group: &str, subgroup: &str, name: &str, reading: Reading<f32>) -> Channel<f32> {
    Channel {
        group: group.to_string(),
        subgroup: subgroup.to_string(),
        channel: name.to_string(),
        reading,
    }
}

fn cpu(name: &str, items: &[(&str, i64)]) -> Channel<f32> {
    channel("CPU Stats", CPU_FREQ_CORE_SUBG, name, Reading::Residencies(states(items)))
}

fn gpu(items: &[(&str, i64)]) -> Channel<f32> {
    channel("GPU Stats", GPU_FREQ_DICE_SUBG, "GPUPH", Reading::Residencies(states(items)))
}

fn power(name: &str, watts: f32) -> Channel<f32> {
    channel("Energy Model", "", name, Reading::Watts(watts))
}

fn bytes(name: &str, n: u64) -> Channel<f32> {
    channel("AMC Stats", "Perf Counters", name, Reading::Bytes(n))
}

fn bandwidth(name: &str, items: &[(&str, i64)]) -> Channel<f32> {
    channel("PMP", "AF BW", name, Reading::Residencies(states(items)))
}

fn soc() -> SocInfo {
    SocInfo {
        ecpu_freqs: vec![1000, 2000],
        pcpu_freqs: vec![500, 4000],
        gpu_freqs: vec![0, 300, 900],
    }
}

fn sampler() -> Sampler {
    Sampler::new(soc(), &vec![])
}

fn full_sample() -> Vec<Channel<f32>> {
    vec![
        cpu("ECPU0", &[("IDLE", 50), ("P1", 30), ("P2", 20)]),
        cpu("ECPU1", &[("IDLE", 0), ("P1", 0), ("P2", 100)]),
        cpu("PCPU0", &[("DOWN", 25), ("IDLE", 25), ("P1", 50), ("P2", 0)]),
        gpu(&[("OFF", 50), ("P1", 50), ("P2", 0)]),
        power("CPU Energy", 1.5),
        power("CPU Energy", 0.5),
        power("GPU Energy", 3.0),
        power("ANE0", 0.25),
        power("DRAM", 100.0),
        bytes("ANE0 DCS RD", 100),
        bytes("ANE1 DCS RD", 200),
        bytes("ANE0 DCS WR", 50),
        bytes("ANE0 RD", 7777),
        bytes("DCS RD", 1000),
        bytes("DCS WR", 20),
        bandwidth("ANE0 RD+WR", &[("1GB/s", 4), ("2GB/s", 8)]),
        bandwidth("ANE1 RD+WR", &[("1GB/s", 4), ("2GB/s", 0)]),
    ]
}

#[test]
fn sums_and_shares() {
    assert_eq!(sum(&vec![1.0f32, 2.0, 4.5]), 7.5);
    assert_eq!(sum::<f64>(&vec![]), 0.0);
    assert_eq!(share::<Ieee>(&vec![1.0, 2.0, 4.5], 3), 2.5);
    assert_eq!(share::<Ieee>(&vec![1.0], 0), 0.0);
}

#[test]
fn larger_prefers_numbers() {
    assert_eq!(larger(1.0f32, 2.0), 2.0);
    assert_eq!(larger(2.0f32, 1.0), 2.0);
    assert_eq!(larger(f32::NAN, 1.0), 1.0);
    assert_eq!(larger(1.0, f32::NAN), 1.0);
    assert!(larger(f32::NAN, f32::NAN).is_nan());
}

#[test]
fn active_states_follow_the_idle_ones() {
    assert_eq!(active_offset(&states(&[("IDLE", 1), ("DOWN", 1), ("V0", 1), ("IDLE", 1)])), Some(2));
    assert_eq!(active_offset(&states(&[("V0", 1)])), Some(0));
    assert_eq!(active_offset(&states(&[("OFF", 1), ("IDLE", 1)])), None);
    assert_eq!(active_offset(&states(&[])), None);
}

#[test]
fn freq_data_must_fit() {
    let items = states(&[("IDLE", 1), ("A", 1), ("B", 1)]);
    assert!(check_freq_data(&items, &vec![1, 2]));
    assert!(check_freq_data(&items, &vec![1]));
    assert!(!check_freq_data(&items, &vec![]));
    assert!(!check_freq_data(&items, &vec![1, 2, 3]));
    assert!(!check_freq_data(&states(&[("IDLE", 1), ("OFF", 1)]), &vec![1]));
    assert!(!check_freq_data(&states(&[("IDLE", 1), ("DOWN", 1), ("A", 1)]), &vec![1, 2]));
}

#[test]
fn core_frequency_is_the_mean_over_active_time() {
    let items = states(&[("IDLE", 50), ("P1", 30), ("P2", 20)]);
    assert_eq!(calc_freq::<Ieee>(&items, &vec![1000, 2000]), (1400, 0.35));
}

#[test]
fn core_without_active_time_uses_nothing() {
    let items = states(&[("IDLE", 50), ("P1", 0), ("P2", 0)]);
    assert_eq!(calc_freq::<Ieee>(&items, &vec![1000, 2000]), (0, 0.0));
    let items = states(&[("IDLE", 0), ("P1", 0), ("P2", 0)]);
    assert_eq!(calc_freq::<Ieee>(&items, &vec![1000, 2000]), (0, 0.0));
}

#[test]
fn states_beyond_the_table_count_as_used_time_only() {
    let items = states(&[("P1", 50), ("P2", 0), ("P3", 50)]);
    assert_eq!(calc_freq::<Ieee>(&items, &vec![1000, 2000]), (500, 0.5));
}

#[test]
fn cluster_frequency_is_the_mean_over_cores() {
    let cores = vec![(1000, 0.5), (2000, 0.25)];
    assert_eq!(calc_freq_final::<Ieee>(&cores, &vec![600, 3000]), (1500, 0.375));
}

#[test]
fn cluster_frequency_is_not_below_the_lowest_one() {
    assert_eq!(calc_freq_final::<Ieee>(&vec![(100, 0.5)], &vec![600, 3000]), (600, 0.5));
    assert_eq!(calc_freq_final::<Ieee>(&vec![], &vec![600, 3000]), (600, 0.0));
}

#[test]
fn rates_are_per_second() {
    assert_eq!(bytes_per_second::<Ieee>(1000, 250), 4000);
    assert_eq!(bytes_per_second::<Ieee>(1, 3000), 0);
    assert_eq!(bytes_per_second::<Ieee>(1000, 0), 0);
    assert_eq!(bytes_per_second::<Ieee>(u64::MAX, 1), u64::MAX);
}

#[test]
fn controller_temperatures() {
    let word = |x: f32| x.to_le_bytes().to_vec();
    let mut long = word(50.0);
    long.extend([1, 2, 3, 4]);
    let t = get_temp_smc::<Ieee>(&vec![word(40.0), long], &vec![]);
    assert_eq!((t.cpu_temp_avg, t.gpu_temp_avg), (45.0, 0.0));
    let t = get_temp_smc::<Ieee>(&vec![], &vec![word(30.5)]);
    assert_eq!((t.cpu_temp_avg, t.gpu_temp_avg), (0.0, 30.5));
}

#[test]
fn input_subsystem_temperatures() {
    let named = |n: &str, x: f32| (n.to_string(), x);
    let t = get_temp_hid::<Ieee>(&vec![
        named("pACC MTR Temp Sensor0", 40.0),
        named("eACC MTR Temp Sensor1", 50.0),
        named("GPU MTR Temp Sensor2", 33.0),
        named("SOC MTR Temp Sensor0", 99.0),
        named("x pACC MTR Temp Sensor", 99.0),
    ]);
    assert_eq!((t.cpu_temp_avg, t.gpu_temp_avg), (45.0, 33.0));
    let t = get_temp_hid::<Ieee>(&vec![]);
    assert_eq!((t.cpu_temp_avg, t.gpu_temp_avg), (0.0, 0.0));
}

#[test]
fn system_power_is_decoded() {
    assert_eq!(Sampler::get_sys_power::<Ieee>(&12.5f32.to_le_bytes().to_vec()), 12.5);
}

#[test]
fn one_sample_is_evaluated() {
    let m = sample_metrics::<Ieee>(&soc(), &full_sample(), 250).unwrap();
    assert_eq!(m.ecpu_usage, (1700, (0.35 + 1.0) / 2.0));
    assert_eq!(m.pcpu_usage, (500, 0.0625));
    assert_eq!(m.gpu_usage, (300, (1.0f64 / 6.0) as f32));
    assert_eq!((m.cpu_power, m.gpu_power, m.ane_power), (2.0, 3.0, 0.25));
    assert_eq!((m.ane_rd_bw, m.ane_wr_bw), (1200, 200));
    assert_eq!((m.sys_rd_bw, m.sys_wr_bw), (2800, 0));
    assert_eq!(m.ane_bw_hist.labels, vec!["1GB/s", "2GB/s"]);
    assert_eq!(m.ane_bw_hist.values, vec![8, 8]);
    assert_eq!((m.all_power, m.sys_power, m.memory.ram_total), (0.0, 0.0, 0));
}

#[test]
fn empty_sample_is_evaluated() {
    let m = sample_metrics::<Ieee>(&soc(), &vec![], 250).unwrap();
    assert_eq!((m.ecpu_usage, m.pcpu_usage, m.gpu_usage), ((1000, 0.0), (500, 0.0), (0, 0.0)));
    assert_eq!((m.cpu_power, m.sys_rd_bw), (0.0, 0));
    assert!(m.ane_bw_hist.labels.is_empty());
}

#[test]
fn last_gpu_channel_counts() {
    let sample = vec![
        gpu(&[("OFF", 50), ("P1", 50), ("P2", 0)]),
        gpu(&[("OFF", 0), ("P1", 0), ("P2", 9)]),
    ];
    let m = sample_metrics::<Ieee>(&soc(), &sample, 250).unwrap();
    assert_eq!(m.gpu_usage, (900, 1.0));
}

#[test]
fn unused_channels_do_not_matter() {
    let mut sample = full_sample();
    sample.insert(3, channel("CPU Stats", "other", "ECPU0", Reading::Bytes(1)));
    let m = sample_metrics::<Ieee>(&soc(), &sample, 250).unwrap();
    assert_eq!(m.ecpu_usage.0, 1700);
    assert_eq!(m.sys_rd_bw, 2800);
}

#[test]
fn channel_order_does_not_matter_to_counters() {
    let mut sample = full_sample();
    sample.reverse();
    let m = sample_metrics::<Ieee>(&soc(), &sample, 250).unwrap();
    assert_eq!((m.ane_rd_bw, m.ane_wr_bw, m.sys_rd_bw, m.sys_wr_bw), (1200, 200, 2800, 0));
}

#[test]
fn samples_that_do_not_fit_give_nothing() {
    let bad = |s: SocInfo, c: Vec<Channel<f32>>| sample_metrics::<Ieee>(&s, &c, 250).is_none();
    assert!(bad(SocInfo { ecpu_freqs: vec![], ..soc() }, vec![]));
    assert!(bad(SocInfo { pcpu_freqs: vec![], ..soc() }, vec![]));
    assert!(bad(soc(), vec![cpu("ECPU0", &[("IDLE", 1), ("P1", 1)])]));
    assert!(bad(soc(), vec![cpu("PCPU0", &[("IDLE", 1), ("IDLE", 1), ("IDLE", 1)])]));
    assert!(bad(soc(), vec![gpu(&[("OFF", 1), ("OFF", 1), ("P1", 1)])]));
    assert!(bad(SocInfo { gpu_freqs: vec![], ..soc() }, vec![gpu(&[("OFF", 1), ("P1", 1)])]));
    assert!(bad(SocInfo { gpu_freqs: vec![0], ..soc() }, vec![gpu(&[("OFF", 1), ("P1", 1)])]));
    assert!(bad(soc(), vec![bytes("DCS RD", u64::MAX), bytes("DCS RD", 1)]));
    assert!(bad(soc(), vec![bytes("ANE0 DCS WR", u64::MAX), bytes("ANE1 DCS WR", 1)]));
    assert!(bad(
        soc(),
        vec![bandwidth("ANE0 RD+WR", &[("a", 1)]), bandwidth("ANE1 RD+WR", &[("a", 1), ("b", 1)])]
    ));
    assert!(bad(soc(), vec![channel("Energy Model", "", "CPU Energy", Reading::Unread)]));
    assert!(bad(soc(), vec![channel("AMC Stats", "Perf Counters", "DCS RD", Reading::Watts(1.0))]));
    assert!(bad(soc(), vec![channel("PMP", "AF BW", "ANE RD+WR", Reading::Bytes(1))]));
}

fn result(freq: u32, part: f32, power: f32, bw: u64, hist: &[(&str, u64)]) -> Metrics<f32> {
    Metrics {
        ecpu_usage: (freq, part),
        pcpu_usage: (freq + 4, part),
        gpu_usage: (freq + 8, part),
        cpu_power: power,
        gpu_power: power * 2.0,
        ane_power: power * 4.0,
        sys_rd_bw: bw,
        sys_wr_bw: bw + 4,
        ane_rd_bw: bw + 8,
        ane_wr_bw: bw + 12,
        ane_bw_hist: MetricHistogram {
            labels: hist.iter().map(|h| h.0.to_string()).collect(),
            values: hist.iter().map(|h| h.1).collect(),
        },
        ..Default::default()
    }
}

#[test]
fn results_are_smoothed() {
    assert_eq!(MEASURES, 4);
    let results = vec![
        result(100, 0.5, 1.0, 10, &[("a", 4)]),
        result(200, 0.25, 2.0, 20, &[("b", 8), ("a", 8)]),
        result(300, 0.25, 3.0, 30, &[]),
        result(403, 0.0, 6.0, 43, &[("a", 1)]),
    ];
    let memory = MemMetrics { ram_total: 4, ram_usage: 3, swap_total: 2, swap_usage: 1 };
    let temp = TempMetrics { cpu_temp_avg: 40.0, gpu_temp_avg: 30.0 };
    let m = summarize::<Ieee>(&results, memory, temp, Some(30.0)).unwrap();
    assert_eq!(m.ecpu_usage, (250, 0.25));
    assert_eq!(m.pcpu_usage, (254, 0.25));
    assert_eq!(m.gpu_usage, (258, 0.25));
    assert_eq!((m.cpu_power, m.gpu_power, m.ane_power), (3.0, 6.0, 12.0));
    assert_eq!((m.all_power, m.sys_power), (21.0, 30.0));
    assert_eq!((m.sys_rd_bw, m.sys_wr_bw, m.ane_rd_bw, m.ane_wr_bw), (25, 29, 33, 37));
    assert_eq!(m.ane_bw_hist.labels, vec!["a", "b"]);
    assert_eq!(m.ane_bw_hist.values, vec![3, 2]);
    assert_eq!(m.memory, memory);
    assert_eq!((m.temp.cpu_temp_avg, m.temp.gpu_temp_avg), (40.0, 30.0));
}

#[test]
fn system_power_is_not_below_the_parts() {
    let results = vec![result(0, 0.0, 4.0, 0, &[])];
    let run = |p| {
        let m = summarize::<Ieee>(&results, MemMetrics::default(), TempMetrics::default(), p);
        let m = m.unwrap();
        (m.all_power, m.sys_power)
    };
    assert_eq!(run(Some(5.0)), (7.0, 7.0));
    assert_eq!(run(Some(8.0)), (7.0, 8.0));
    assert_eq!(run(Some(f32::NAN)), (7.0, 7.0));
    assert_eq!(run(None), (7.0, 0.0));
}

#[test]
fn sums_that_do_not_fit_give_nothing() {
    let none = |results: Vec<Metrics<f32>>| {
        summarize::<Ieee>(&results, MemMetrics::default(), TempMetrics::default(), None).is_none()
    };
    let zero = Metrics::<f32>::default;
    assert!(none(vec![
        Metrics { ecpu_usage: (u32::MAX, 0.0), ..zero() },
        Metrics { ecpu_usage: (1, 0.0), ..zero() }
    ]));
    assert!(none(vec![
        Metrics { gpu_usage: (u32::MAX, 0.0), ..zero() },
        Metrics { gpu_usage: (1, 0.0), ..zero() }
    ]));
    assert!(none(vec![
        Metrics { sys_wr_bw: u64::MAX, ..zero() },
        Metrics { sys_wr_bw: 1, ..zero() }
    ]));
    assert!(none(vec![
        result(0, 0.0, 0.0, 0, &[("a", u64::MAX)]),
        result(0, 0.0, 0.0, 0, &[("a", 1)])
    ]));
    assert!(!none(vec![]));
}

#[test]
fn steady_machine_is_reported_as_it_is() {
    let samples: Vec<Sample<f32>> =
        (0..MEASURES).map(|_| Sample { channels: full_sample(), millis: 250 }).collect();
    let memory = MemMetrics { ram_total: 4, ram_usage: 3, swap_total: 2, swap_usage: 1 };
    let m = sampler()
        .get_metrics::<Ieee>(&samples, memory, TempMetrics::default(), Some(1.0))
        .unwrap();
    let one = sample_metrics::<Ieee>(&soc(), &full_sample(), 250).unwrap();
    assert_eq!(m.ecpu_usage, one.ecpu_usage);
    assert_eq!(m.pcpu_usage, one.pcpu_usage);
    assert_eq!(m.gpu_usage, one.gpu_usage);
    assert_eq!((m.cpu_power, m.gpu_power, m.ane_power), (2.0, 3.0, 0.25));
    assert_eq!((m.all_power, m.sys_power), (5.25, 5.25));
    assert_eq!((m.sys_rd_bw, m.sys_wr_bw), (2800, 0));
    assert_eq!((m.ane_rd_bw, m.ane_wr_bw), (1200, 200));
    assert_eq!(m.ane_bw_hist.labels, vec!["1GB/s", "2GB/s"]);
    assert_eq!(m.ane_bw_hist.values, vec![8, 8]);
    assert_eq!(m.memory, memory);
}

#[test]
fn metrics_are_divided_by_the_number_of_samples_asked_for() {
    let samples = vec![Sample { channels: full_sample(), millis: 250 }];
    let m = sampler()
        .get_metrics::<Ieee>(&samples, MemMetrics::default(), TempMetrics::default(), None)
        .unwrap();
    assert_eq!(m.ecpu_usage.0, 425);
    assert_eq!(m.cpu_power, 0.5);
    assert_eq!(m.sys_rd_bw, 700);
    assert_eq!(m.ane_bw_hist.values, vec![2, 2]);
}

#[test]
fn one_bad_sample_gives_nothing() {
    let samples = vec![
        Sample { channels: full_sample(), millis: 250 },
        Sample { channels: vec![cpu("ECPU0", &[])], millis: 250 },
    ];
    let m = sampler().get_metrics::<Ieee>(
        &samples,
        MemMetrics::default(),
        TempMetrics::default(),
        None,
    );
    assert!(m.is_none());
}

#[test]
fn sensors_elsewhere_do_not_matter() {
    let named = |n: &str, x: f32| (n.to_string(), x);
    let few = vec![named("pACC MTR Temp Sensor0", 40.0), named("GPU MTR Temp Sensor2", 33.0)];
    let many = vec![
        named("NAND CH0 temp", 20.0),
        named("pACC MTR Temp Sensor0", 40.0),
        named("gas gauge battery", 25.0),
        named("GPU MTR Temp Sensor2", 33.0),
        named("PMGR SOC Die Temp Sensor0", 60.0),
    ];
    let a = get_temp_hid::<Ieee>(&few);
    let b = get_temp_hid::<Ieee>(&many);
    assert_eq!((a.cpu_temp_avg, a.gpu_temp_avg), (40.0, 33.0));
    assert_eq!((b.cpu_temp_avg, b.gpu_temp_avg), (40.0, 33.0));
}

#[test]
fn unused_channels_do_not_matter_to_the_metrics() {
    let few = || Sample { channels: full_sample(), millis: 250 };
    let many = || {
        let mut channels = full_sample();
        channels.insert(0, bytes("ANE0 RD", 5000));
        channels.insert(9, bytes("ANE0 WR", 6000));
        channels.push(channel("Interrupt Statistics", "x", "DCS RD", Reading::Bytes(9)));
        channels.push(channel("PMP", "AF BW", "ANE0 RD", Reading::Unread));
        Sample { channels, millis: 250 }
    };
    let run = |samples: Vec<Sample<f32>>| {
        sampler()
            .get_metrics::<Ieee>(&samples, MemMetrics::default(), TempMetrics::default(), Some(9.0))
            .unwrap()
    };
    let a = run(vec![few(), few(), few(), few()]);
    let b = run(vec![many(), few(), many(), many()]);
    assert_eq!(format!("{:?}", a), format!("{:?}", b));
    assert_eq!((b.ane_rd_bw, b.ane_wr_bw, b.sys_rd_bw), (1200, 200, 2800));
}

#[test]
fn names_of_active_states_do_not_matter() {
    let a = states(&[("IDLE", 50), ("P1", 30), ("P2", 20)]);
    let b = states(&[("DOWN", 50), ("V7", 30), ("", 20)]);
    assert_eq!(calc_freq::<Ieee>(&a, &vec![1000, 2000]), (1400, 0.35));
    assert_eq!(calc_freq::<Ieee>(&b, &vec![1000, 2000]), (1400, 0.35));
    assert!(check_freq_data(&a, &vec![1]) && check_freq_data(&b, &vec![1]));
}

#[test]
fn only_proportions_of_residencies_matter() {
    let times = [7i64, 31, 13, 997];
    let freqs = vec![600, 972, 1332];
    let at = |scale: i64| {
        let items: Vec<(String, i64)> = ["IDLE", "P1", "P2", "P3"]
            .iter()
            .zip(times.iter())
            .map(|(l, t)| (l.to_string(), t * scale))
            .collect();
        calc_freq::<Ieee>(&items, &freqs)
    };
    for k in 1..40 {
        assert_eq!(at(1 << k), at(1));
    }
}

#[test]
fn channels_are_checked_one_by_one() {
    assert!(full_sample().iter().all(|c| c.check(&soc())));
    assert!(!cpu("ECPU0", &[("IDLE", 1)]).check(&soc()));
    assert!(!gpu(&[("OFF", 1), ("P1", 1), ("P2", 1)]).check(&SocInfo { gpu_freqs: vec![], ..soc() }));
    assert!(!channel("Energy Model", "", "ANE0", Reading::Bytes(1)).check(&soc()));
    assert!(channel("Unknown", "", "ANE0", Reading::Bytes(1)).check(&soc()));
}
