//! The sampler: what is known of the machine from the start, and how what is read from it
//! becomes its metrics.
use crate::arith::{total, Floats};
use crate::metrics::{MemMetrics, Metrics};
use crate::sample::{
    only_used_channels_matter, sample_is, sample_metrics, sample_ok, used, Channel, SocInfo,
};
use crate::smc::{
    init_smc, names_a_sensor, sensors, sensors_are_named, sensors_push, stored_as, word, word_at,
    word_has_digits, SmcProbe,
};
use crate::summary::{histograms_wf, summarize, summary_is, summary_ok};
use crate::temperature::TempMetrics;
use crate::text::texts;
use vstd::prelude::*;

verus! {

/// The report channels over a span of time.
#[derive(Debug)]
pub struct Sample<F> {
    pub channels: Vec<Channel<F>>,
    /// The length of the span in milliseconds.
    pub millis: u64,
}

/// Where temperatures are read.
#[derive(Debug, Clone, Copy, PartialEq, Eq, Structural)]
pub enum TempSource {
    /// The sensors of the system management controller.
    Smc,
    /// The sensors of the input subsystem.
    Hid,
}

/// What the sampler knows of the machine.
#[derive(Debug)]
pub struct Sampler {
    pub soc: SocInfo,
    /// The names of the controller's sensors at the processor.
    pub smc_cpu_keys: Vec<String>,
    /// The names of the controller's sensors at the graphics unit.
    pub smc_gpu_keys: Vec<String>,
}

/// `results` are what `samples` say of the machine, one by one.
pub open spec fn results_are<N: Floats>(
    soc: SocInfo,
    samples: Seq<Sample<N::Single>>,
    results: Seq<Metrics<N::Single>>,
) -> bool {
    &&& results.len() == samples.len()
    &&& forall|i: int|
        0 <= i < samples.len() ==> sample_is::<N>(
            soc,
            samples[i].channels@,
            samples[i].millis,
            #[trigger] results[i],
        )
}

/// Every one of `samples` can be evaluated.
pub open spec fn samples_ok<F>(soc: SocInfo, samples: Seq<Sample<F>>) -> bool {
    forall|i: int| 0 <= i < samples.len() ==> sample_ok(soc, #[trigger] samples[i].channels@)
}

/// `r` holds the metrics of a machine with the chip `soc`: what `samples` say of it,
/// smoothed, together with what was measured once. It holds nothing where a sample cannot
/// be evaluated or a sum does not fit.
pub open spec fn metrics_are<N: Floats>(
    soc: SocInfo,
    samples: Seq<Sample<N::Single>>,
    memory: MemMetrics,
    temp: TempMetrics<N::Single>,
    power: Option<N::Single>,
    r: Option<Metrics<N::Single>>,
) -> bool {
    match r {
        Some(m) => {
            &&& samples_ok(soc, samples)
            &&& exists|results: Seq<Metrics<N::Single>>|
                {
                    &&& #[trigger] results_are::<N>(soc, samples, results)
                    &&& summary_ok(results)
                    &&& summary_is::<N>(results, memory, temp, power, m)
                }
        },
        None => samples_ok(soc, samples) ==> exists|results: Seq<Metrics<N::Single>>| #[trigger]
            results_are::<N>(soc, samples, results) && !summary_ok(results),
    }
}

impl Sampler {
    /// The sampler of a machine with the chip `soc`, whose controller has the keys
    /// `probes`.
    pub fn new(soc: SocInfo, probes: &Vec<SmcProbe>) -> (r: Sampler)
        ensures
            r.soc == soc,
            texts(r.smc_cpu_keys@) == sensors(probes@, "Tp"@),
            texts(r.smc_gpu_keys@) == sensors(probes@, "Tg"@),
    {
        let (smc_cpu_keys, smc_gpu_keys) = init_smc(probes);
        Sampler { soc, smc_cpu_keys, smc_gpu_keys }
    }

    /// Where temperatures are read: at the controller where it has sensors of the
    /// processor. Which machines have them depends on the version of the system rather
    /// than on the chip.
    pub fn temp_source(&self) -> (r: TempSource)
        ensures
            r == if self.smc_cpu_keys@.len() > 0 {
                TempSource::Smc
            } else {
                TempSource::Hid
            },
    {
        if self.smc_cpu_keys.len() > 0 {
            TempSource::Smc
        } else {
            TempSource::Hid
        }
    }

    /// The memory metrics. Both `ram` and `swap` hold what is used, then what there is.
    pub fn get_mem(ram: (u64, u64), swap: (u64, u64)) -> (r: MemMetrics)
        ensures
            r.ram_usage == ram.0,
            r.ram_total == ram.1,
            r.swap_usage == swap.0,
            r.swap_total == swap.1,
    {
        MemMetrics { ram_total: ram.1, ram_usage: ram.0, swap_total: swap.1, swap_usage: swap.0 }
    }

    /// The power of the whole system, from the value that the controller stores for it.
    pub fn get_sys_power<N: Floats>(data: &Vec<u8>) -> (r: N::Single)
        requires
            data@.len() == 4,
        ensures
            call_ensures(N::single_of_bits, (word_at(data@) as u32,), r),
    {
        N::single_of_bits(word(data))
    }

    /// The metrics of the machine: what `samples` say of it, smoothed, and what was
    /// measured once.
    ///
    /// Gives nothing where a sample cannot be evaluated or a sum would not fit.
    pub fn get_metrics<N: Floats>(
        &self,
        samples: &Vec<Sample<N::Single>>,
        memory: MemMetrics,
        temp: TempMetrics<N::Single>,
        power: Option<N::Single>,
    ) -> (r: Option<Metrics<N::Single>>)
        requires
            total::<N>(),
        ensures
            metrics_are::<N>(self.soc, samples@, memory, temp, power, r),
    {
        let mut results: Vec<Metrics<N::Single>> = Vec::new();
        for i in 0..samples.len()
            invariant
                total::<N>(),
                results_are::<N>(self.soc, samples@.take(i as int), results@),
                samples_ok(self.soc, samples@.take(i as int)),
                histograms_wf(results@),
        {
            match sample_metrics::<N>(&self.soc, &samples[i].channels, samples[i].millis) {
                Some(m) => {
                    results.push(m);
                    proof {
                        let before = samples@.take(i as int);
                        let upto = samples@.take(i + 1);
                        assert(upto =~= before.push(samples@[i as int]));
                        assert forall|j: int| 0 <= j < upto.len() implies sample_ok(
                            self.soc,
                            #[trigger] upto[j].channels@,
                        ) by {
                            if j < i {
                                assert(sample_ok(self.soc, before[j].channels@));
                            }
                        }
                    }
                },
                None => {
                    assert(!sample_ok(self.soc, samples@[i as int].channels@));
                    return None;
                },
            }
        }
        assert(samples@.take(samples@.len() as int) =~= samples@);
        let r = summarize::<N>(&results, memory, temp, power);
        assert(results_are::<N>(self.soc, samples@, results@));
        r
    }
}

/// The controller is asked for temperatures exactly where one of its keys is a readable
/// sensor of the processor.
pub proof fn controller_is_used_where_it_has_sensors(s: Sampler, probes: Seq<SmcProbe>)
    requires
        texts(s.smc_cpu_keys@) == sensors(probes, "Tp"@),
    ensures
        s.smc_cpu_keys@.len() > 0 <==> exists|i: int|
            0 <= i < probes.len() && (#[trigger] probes[i]).is_sensor("Tp"@),
{
    let pred = |p: SmcProbe| p.is_sensor("Tp"@);
    let found = probes.filter(pred);
    assert(texts(s.smc_cpu_keys@).len() == s.smc_cpu_keys@.len());
    if found.len() > 0 {
        probes.lemma_filter_pred(pred, 0);
        probes.lemma_filter_contains_rev(pred, found[0]);
        let i = choose|i: int| 0 <= i < probes.len() && probes[i] == found[0];
        assert(probes[i].is_sensor("Tp"@));
    }
    if exists|i: int| 0 <= i < probes.len() && (#[trigger] probes[i]).is_sensor("Tp"@) {
        let i = choose|i: int| 0 <= i < probes.len() && (#[trigger] probes[i]).is_sensor("Tp"@);
        probes.lemma_filter_contains(pred, i);
        assert(found.contains(probes[i]));
    }
}

/// The samples `a` and `b` have the same lengths and the same used channels, one by one.
pub open spec fn used_alike<F>(a: Seq<Sample<F>>, b: Seq<Sample<F>>) -> bool {
    &&& a.len() == b.len()
    &&& forall|i: int|
        #![trigger a[i]]
        #![trigger b[i]]
        0 <= i < a.len() ==> {
            &&& a[i].millis == b[i].millis
            &&& used(a[i].channels@) == used(b[i].channels@)
        }
}

proof fn results_of_used<N: Floats>(
    soc: SocInfo,
    a: Seq<Sample<N::Single>>,
    b: Seq<Sample<N::Single>>,
    results: Seq<Metrics<N::Single>>,
)
    requires
        used_alike(a, b),
        results_are::<N>(soc, a, results),
    ensures
        results_are::<N>(soc, b, results),
{
    assert forall|i: int| 0 <= i < b.len() implies sample_is::<N>(
        soc,
        b[i].channels@,
        b[i].millis,
        #[trigger] results[i],
    ) by {
        only_used_channels_matter::<N>(soc, a[i].channels@, a[i].millis, results[i]);
        only_used_channels_matter::<N>(soc, b[i].channels@, b[i].millis, results[i]);
    }
}

/// Samples that differ only in channels that are not used can be evaluated in the same
/// cases and lead to the same results.
pub proof fn results_depend_on_used_channels<N: Floats>(
    soc: SocInfo,
    a: Seq<Sample<N::Single>>,
    b: Seq<Sample<N::Single>>,
)
    requires
        used_alike(a, b),
    ensures
        samples_ok(soc, a) <==> samples_ok(soc, b),
        forall|results: Seq<Metrics<N::Single>>| #[trigger]
            results_are::<N>(soc, a, results) <==> results_are::<N>(soc, b, results),
{
    let any: Metrics<N::Single> = arbitrary();
    assert forall|i: int| #![trigger a[i]] #![trigger b[i]] 0 <= i < a.len() implies (sample_ok(
        soc,
        a[i].channels@,
    ) <==> sample_ok(soc, b[i].channels@)) by {
        only_used_channels_matter::<N>(soc, a[i].channels@, 0, any);
        only_used_channels_matter::<N>(soc, b[i].channels@, 0, any);
    }
    assert forall|results: Seq<Metrics<N::Single>>| #[trigger]
        results_are::<N>(soc, a, results) <==> results_are::<N>(soc, b, results) by {
        if results_are::<N>(soc, a, results) {
            results_of_used::<N>(soc, a, b, results);
        }
        if results_are::<N>(soc, b, results) {
            results_of_used::<N>(soc, b, a, results);
        }
    }
}

/// Channels that are not used change nothing in the metrics of a machine, however many of
/// them its samples hold.
pub proof fn metrics_depend_on_used_channels<N: Floats>(
    soc: SocInfo,
    a: Seq<Sample<N::Single>>,
    b: Seq<Sample<N::Single>>,
    memory: MemMetrics,
    temp: TempMetrics<N::Single>,
    power: Option<N::Single>,
    r: Option<Metrics<N::Single>>,
)
    requires
        used_alike(a, b),
    ensures
        metrics_are::<N>(soc, a, memory, temp, power, r) <==> metrics_are::<N>(
            soc,
            b,
            memory,
            temp,
            power,
            r,
        ),
{
    results_depend_on_used_channels::<N>(soc, a, b);
    if metrics_are::<N>(soc, a, memory, temp, power, r) {
        metrics_carry_over::<N>(soc, a, b, memory, temp, power, r);
    }
    if metrics_are::<N>(soc, b, memory, temp, power, r) {
        results_depend_on_used_channels::<N>(soc, b, a);
        metrics_carry_over::<N>(soc, b, a, memory, temp, power, r);
    }
}

proof fn metrics_carry_over<N: Floats>(
    soc: SocInfo,
    a: Seq<Sample<N::Single>>,
    b: Seq<Sample<N::Single>>,
    memory: MemMetrics,
    temp: TempMetrics<N::Single>,
    power: Option<N::Single>,
    r: Option<Metrics<N::Single>>,
)
    requires
        samples_ok(soc, a) <==> samples_ok(soc, b),
        forall|results: Seq<Metrics<N::Single>>| #[trigger]
            results_are::<N>(soc, a, results) ==> results_are::<N>(soc, b, results),
        metrics_are::<N>(soc, a, memory, temp, power, r),
    ensures
        metrics_are::<N>(soc, b, memory, temp, power, r),
{
    match r {
        Some(m) => {
            let results = choose|results: Seq<Metrics<N::Single>>|
                {
                    &&& #[trigger] results_are::<N>(soc, a, results)
                    &&& summary_ok(results)
                    &&& summary_is::<N>(results, memory, temp, power, m)
                };
            assert(results_are::<N>(soc, b, results));
        },
        None => {
            if samples_ok(soc, a) {
                let results = choose|results: Seq<Metrics<N::Single>>| #[trigger]
                    results_are::<N>(soc, a, results) && !summary_ok(results);
                assert(results_are::<N>(soc, b, results));
            }
        },
    }
}

/// A new sampler knows the chip that it was given. Its sensors grow with the keys of the
/// controller: one more key adds its name to the end of those at the processor, or of those
/// at the graphics unit, where it is a sensor there, and changes nothing else. Without keys
/// there are no sensors.
pub proof fn samplers_learn_key_by_key(
    soc: SocInfo,
    probes: Vec<SmcProbe>,
    more: Vec<SmcProbe>,
    p: SmcProbe,
    r: Sampler,
    s: Sampler,
)
    requires
        more@ == probes@.push(p),
        call_ensures(Sampler::new, (soc, &probes), r),
        call_ensures(Sampler::new, (soc, &more), s),
    ensures
        r.soc == soc,
        probes@.len() == 0 ==> r.smc_cpu_keys@.len() == 0 && r.smc_gpu_keys@.len() == 0,
        texts(s.smc_cpu_keys@) == if names_a_sensor(p, 'p') {
            texts(r.smc_cpu_keys@).push(p.name@)
        } else {
            texts(r.smc_cpu_keys@)
        },
        texts(s.smc_gpu_keys@) == if names_a_sensor(p, 'g') {
            texts(r.smc_gpu_keys@).push(p.name@)
        } else {
            texts(r.smc_gpu_keys@)
        },
{
    sensors_are_named(p);
    sensors_push(probes@, p, "Tp"@);
    sensors_push(probes@, p, "Tg"@);
    if probes@.len() == 0 {
        reveal_with_fuel(Seq::filter, 1);
        assert(texts(r.smc_cpu_keys@).len() == r.smc_cpu_keys@.len());
        assert(texts(r.smc_gpu_keys@).len() == r.smc_gpu_keys@.len());
    }
}

/// A new sampler reads temperatures at the controller exactly where one of its keys is a
/// sensor at the processor; else it reads them at the input subsystem.
pub proof fn samplers_prefer_the_controller(
    soc: SocInfo,
    probes: Vec<SmcProbe>,
    s: Sampler,
    r: TempSource,
)
    requires
        call_ensures(Sampler::new, (soc, &probes), s),
        call_ensures(Sampler::temp_source, (&s,), r),
    ensures
        r is Smc <==> exists|i: int|
            0 <= i < probes@.len() && #[trigger] names_a_sensor(probes@[i], 'p'),
{
    controller_is_used_where_it_has_sensors(s, probes@);
    if r is Smc {
        let i = choose|i: int| 0 <= i < probes@.len() && (#[trigger] probes@[i]).is_sensor("Tp"@);
        sensors_are_named(probes@[i]);
        assert(names_a_sensor(probes@[i], 'p'));
    }
    if exists|i: int| 0 <= i < probes@.len() && #[trigger] names_a_sensor(probes@[i], 'p') {
        let i = choose|i: int|
            0 <= i < probes@.len() && #[trigger] names_a_sensor(probes@[i], 'p');
        sensors_are_named(probes@[i]);
        assert(probes@[i].is_sensor("Tp"@));
    }
}

/// The memory metrics tell what is used from what there is, and the main memory from the
/// swap: two of them are the same exactly where all four numbers are. Where no more is used
/// than there is, they say so.
pub proof fn memory_is_told_apart(
    ram: (u64, u64),
    swap: (u64, u64),
    other_ram: (u64, u64),
    other_swap: (u64, u64),
    r: MemMetrics,
    s: MemMetrics,
)
    requires
        call_ensures(Sampler::get_mem, (ram, swap), r),
        call_ensures(Sampler::get_mem, (other_ram, other_swap), s),
    ensures
        r == s <==> ram == other_ram && swap == other_swap,
        ram.0 <= ram.1 ==> r.ram_usage <= r.ram_total,
        swap.0 <= swap.1 ==> r.swap_usage <= r.swap_total,
        (r.ram_usage, r.ram_total) == ram,
        (r.swap_usage, r.swap_total) == swap,
{
}

/// The power of the whole system is the number whose binary representation is stored in
/// the bytes, the lowest one first.
pub proof fn system_power_is_what_is_stored<N: Floats>(data: Vec<u8>, bits: u32, r: N::Single)
    requires
        stored_as(bits, data@),
        call_ensures(Sampler::get_sys_power::<N>, (&data,), r),
    ensures
        call_ensures(N::single_of_bits, (bits,), r),
{
    word_has_digits(data@, bits);
}

/// The metrics of a machine smooth one result for each of the samples, in order and none of
/// them left out, each evaluated with the chip of the sampler and with its own length; and
/// they hold what was measured once. They are missing only where a sample cannot be
/// evaluated, or where the results of all samples do not add up.
pub proof fn metrics_smooth_all_samples<N: Floats>(
    s: Sampler,
    samples: Vec<Sample<N::Single>>,
    memory: MemMetrics,
    temp: TempMetrics<N::Single>,
    power: Option<N::Single>,
    r: Option<Metrics<N::Single>>,
)
    requires
        call_ensures(Sampler::get_metrics::<N>, (&s, &samples, memory, temp, power), r),
    ensures
        match r {
            Some(m) => {
                &&& forall|i: int|
                    0 <= i < samples@.len() ==> sample_ok(s.soc, (#[trigger] samples@[i]).channels@)
                &&& exists|results: Seq<Metrics<N::Single>>|
                    {
                        &&& #[trigger] summary_is::<N>(results, memory, temp, power, m)
                        &&& summary_ok(results)
                        &&& results.len() == samples@.len()
                        &&& forall|i: int|
                            0 <= i < samples@.len() ==> sample_is::<N>(
                                s.soc,
                                samples@[i].channels@,
                                samples@[i].millis,
                                #[trigger] results[i],
                            )
                    }
                &&& m.memory == memory
                &&& m.temp == temp
            },
            None => {
                ||| exists|i: int|
                    0 <= i < samples@.len() && !sample_ok(
                        s.soc,
                        (#[trigger] samples@[i]).channels@,
                    )
                ||| exists|results: Seq<Metrics<N::Single>>|
                    {
                        &&& !#[trigger] summary_ok(results)
                        &&& results.len() == samples@.len()
                        &&& forall|i: int|
                            0 <= i < samples@.len() ==> sample_is::<N>(
                                s.soc,
                                samples@[i].channels@,
                                samples@[i].millis,
                                #[trigger] results[i],
                            )
                    }
            },
        },
{
    match r {
        Some(m) => {
            let results = choose|results: Seq<Metrics<N::Single>>|
                {
                    &&& #[trigger] results_are::<N>(s.soc, samples@, results)
                    &&& summary_ok(results)
                    &&& summary_is::<N>(results, memory, temp, power, m)
                };
            assert(summary_is::<N>(results, memory, temp, power, m));
            assert forall|i: int| 0 <= i < samples@.len() implies sample_ok(
                s.soc,
                (#[trigger] samples@[i]).channels@,
            ) by {
                assert(sample_ok(s.soc, samples@[i].channels@));
            }
        },
        None => {
            if samples_ok(s.soc, samples@) {
                let results = choose|results: Seq<Metrics<N::Single>>| #[trigger]
                    results_are::<N>(s.soc, samples@, results) && !summary_ok(results);
                assert(!summary_ok(results));
            } else {
                let i = choose|i: int|
                    0 <= i < samples@.len() && !sample_ok(s.soc, #[trigger] samples@[i].channels@);
                assert(!sample_ok(s.soc, samples@[i].channels@));
            }
        },
    }
}

/// Where temperatures are read depends on the processor's sensors alone: at the controller
/// where there is one, whatever else is known.
pub proof fn one_sensor_is_enough(s: Sampler, r: TempSource)
    requires
        call_ensures(Sampler::temp_source, (&s,), r),
    ensures
        r == TempSource::Hid <==> s.smc_cpu_keys@.len() == 0,
{
}

/// Any samples can be handed to a sampler, and the power is defined for any four bytes.
pub proof fn any_samples_can_be_tried<N: Floats>(
    s: Sampler,
    samples: Vec<Sample<N::Single>>,
    memory: MemMetrics,
    temp: TempMetrics<N::Single>,
    power: Option<N::Single>,
    data: Vec<u8>,
)
    requires
        total::<N>(),
    ensures
        call_requires(Sampler::get_metrics::<N>, (&s, &samples, memory, temp, power)),
        data@.len() == 4 ==> call_requires(Sampler::get_sys_power::<N>, (&data,)),
{
}

} // verus!
