//! Smoothing several samples into one set of metrics.
use crate::arith::{
    exact, int_total, is_no_number, larger, larger_is, larger_of_exact, real_total, same_int_total,
    same_real_total, share, share_is, share_of_exact, total, zero_div, zero_div_of_u32,
    zero_div_of_u64, Floats,
};
use crate::histogram::{
    adds_up, checked_sum_hist, mean_of_equal_histograms, merge_adds_up, sum_adds_weights, sum_all,
    sum_keeps_labels, summable, weight_of_distinct, zero_div_hist, HistogramView, MetricHistogram,
};
use crate::metrics::{is_zero, MemMetrics, Metrics};
use crate::temperature::TempMetrics;
use core::ops::Add;
use vstd::prelude::*;

verus! {

/// How many samples are taken, to smooth the metrics.
pub const MEASURES: usize = 4;

/// The sum of `s`.
pub open spec fn int_sum(s: Seq<int>) -> int
    decreases s.len(),
{
    if s.len() == 0 {
        0
    } else {
        int_sum(s.drop_last()) + s.last()
    }
}

/// A metric that is an integer.
#[derive(Debug, Clone, Copy, PartialEq, Eq, Structural)]
pub enum Counter {
    EcpuFreq,
    PcpuFreq,
    GpuFreq,
    SysRead,
    SysWrite,
    AneRead,
    AneWrite,
}

impl Counter {
    /// The metric as it is in `m`.
    pub open spec fn of<F>(self, m: Metrics<F>) -> int {
        match self {
            Counter::EcpuFreq => m.ecpu_usage.0 as int,
            Counter::PcpuFreq => m.pcpu_usage.0 as int,
            Counter::GpuFreq => m.gpu_usage.0 as int,
            Counter::SysRead => m.sys_rd_bw as int,
            Counter::SysWrite => m.sys_wr_bw as int,
            Counter::AneRead => m.ane_rd_bw as int,
            Counter::AneWrite => m.ane_wr_bw as int,
        }
    }

    /// The metric in each of `results`.
    pub open spec fn each<F>(self, results: Seq<Metrics<F>>) -> Seq<int> {
        results.map_values(|m: Metrics<F>| self.of(m))
    }

    fn get<F>(self, m: &Metrics<F>) -> (r: u64)
        ensures
            r == self.of(*m),
    {
        match self {
            Counter::EcpuFreq => m.ecpu_usage.0 as u64,
            Counter::PcpuFreq => m.pcpu_usage.0 as u64,
            Counter::GpuFreq => m.gpu_usage.0 as u64,
            Counter::SysRead => m.sys_rd_bw,
            Counter::SysWrite => m.sys_wr_bw,
            Counter::AneRead => m.ane_rd_bw,
            Counter::AneWrite => m.ane_wr_bw,
        }
    }
}

/// A metric that has a fraction.
#[derive(Debug, Clone, Copy, PartialEq, Eq, Structural)]
pub enum Level {
    EcpuPart,
    PcpuPart,
    GpuPart,
    CpuPower,
    GpuPower,
    AnePower,
}

impl Level {
    /// The metric as it is in `m`.
    pub open spec fn of<F>(self, m: Metrics<F>) -> F {
        match self {
            Level::EcpuPart => m.ecpu_usage.1,
            Level::PcpuPart => m.pcpu_usage.1,
            Level::GpuPart => m.gpu_usage.1,
            Level::CpuPower => m.cpu_power,
            Level::GpuPower => m.gpu_power,
            Level::AnePower => m.ane_power,
        }
    }

    /// The metric in each of `results`.
    pub open spec fn each<F>(self, results: Seq<Metrics<F>>) -> Seq<F> {
        results.map_values(|m: Metrics<F>| self.of(m))
    }

    fn get<F: Copy>(self, m: &Metrics<F>) -> (r: F)
        ensures
            r == self.of(*m),
    {
        match self {
            Level::EcpuPart => m.ecpu_usage.1,
            Level::PcpuPart => m.pcpu_usage.1,
            Level::GpuPart => m.gpu_usage.1,
            Level::CpuPower => m.cpu_power,
            Level::GpuPower => m.gpu_power,
            Level::AnePower => m.ane_power,
        }
    }
}

/// The histogram in each of `results`.
pub open spec fn histograms<F>(results: Seq<Metrics<F>>) -> Seq<HistogramView> {
    results.map_values(|m: Metrics<F>| m.ane_bw_hist@)
}

/// No sum over `results` outgrows the type that it is held in.
pub open spec fn summary_ok<F>(results: Seq<Metrics<F>>) -> bool {
    &&& int_sum(Counter::EcpuFreq.each(results)) <= u32::MAX
    &&& int_sum(Counter::PcpuFreq.each(results)) <= u32::MAX
    &&& int_sum(Counter::GpuFreq.each(results)) <= u32::MAX
    &&& int_sum(Counter::SysRead.each(results)) <= u64::MAX
    &&& int_sum(Counter::SysWrite.each(results)) <= u64::MAX
    &&& int_sum(Counter::AneRead.each(results)) <= u64::MAX
    &&& int_sum(Counter::AneWrite.each(results)) <= u64::MAX
    &&& summable(histograms(results))
}

/// `all` is the power of processor, graphics unit and neural engine together.
pub open spec fn all_power_is<F: Add<Output = F>>(cpu: F, gpu: F, ane: F, all: F) -> bool {
    exists|two: F| #[trigger]
        call_ensures(F::add, (cpu, gpu), two) && call_ensures(F::add, (two, ane), all)
}

/// `r` smooths `results` and adds to it what was measured once: the memory, the
/// temperatures, and the power of the whole system where it could be read. That power is
/// not reported below the one of the parts, and as zero where it could not be read.
pub open spec fn summary_is<N: Floats>(
    results: Seq<Metrics<N::Single>>,
    memory: MemMetrics,
    temp: TempMetrics<N::Single>,
    power: Option<N::Single>,
    r: Metrics<N::Single>,
) -> bool {
    let n = MEASURES as int;
    &&& r.ecpu_usage.0 == int_sum(Counter::EcpuFreq.each(results)) / n
    &&& r.pcpu_usage.0 == int_sum(Counter::PcpuFreq.each(results)) / n
    &&& r.gpu_usage.0 == int_sum(Counter::GpuFreq.each(results)) / n
    &&& share_is::<N>(Level::EcpuPart.each(results), MEASURES, r.ecpu_usage.1)
    &&& share_is::<N>(Level::PcpuPart.each(results), MEASURES, r.pcpu_usage.1)
    &&& share_is::<N>(Level::GpuPart.each(results), MEASURES, r.gpu_usage.1)
    &&& share_is::<N>(Level::CpuPower.each(results), MEASURES, r.cpu_power)
    &&& share_is::<N>(Level::GpuPower.each(results), MEASURES, r.gpu_power)
    &&& share_is::<N>(Level::AnePower.each(results), MEASURES, r.ane_power)
    &&& all_power_is(r.cpu_power, r.gpu_power, r.ane_power, r.all_power)
    &&& r.sys_rd_bw == int_sum(Counter::SysRead.each(results)) / n
    &&& r.sys_wr_bw == int_sum(Counter::SysWrite.each(results)) / n
    &&& r.ane_rd_bw == int_sum(Counter::AneRead.each(results)) / n
    &&& r.ane_wr_bw == int_sum(Counter::AneWrite.each(results)) / n
    &&& r.ane_bw_hist.wf()
    &&& r.ane_bw_hist@ == sum_all(histograms(results)).divided(n)
    &&& r.memory == memory
    &&& r.temp == temp
    &&& match power {
        Some(watts) => larger_is(watts, r.all_power, r.sys_power),
        None => is_zero(r.sys_power),
    }
}

/// Every histogram of `results` has a count for each label.
pub open spec fn histograms_wf<F>(results: Seq<Metrics<F>>) -> bool {
    forall|i: int| 0 <= i < results.len() ==> #[trigger] results[i].ane_bw_hist.wf()
}

proof fn int_sum_grows(s: Seq<int>, n: int)
    requires
        0 <= n <= s.len(),
        forall|i: int| 0 <= i < s.len() ==> 0 <= #[trigger] s[i],
    ensures
        0 <= int_sum(s.take(n)) <= int_sum(s),
    decreases s.len(),
{
    if n < s.len() {
        int_sum_grows(s.drop_last(), n);
        assert(s.drop_last().take(n) =~= s.take(n));
    } else {
        assert(s.take(n) =~= s);
        if n > 0 {
            int_sum_grows(s.drop_last(), n - 1);
        }
    }
}

/// The sum of a metric over `results`, or nothing where it is larger than `max`.
fn checked_sum<F>(results: &Vec<Metrics<F>>, counter: Counter, max: u64) -> (r: Option<u64>)
    ensures
        r is Some <==> int_sum(counter.each(results@)) <= max,
        r matches Some(n) ==> n == int_sum(counter.each(results@)),
{
    let ghost values = counter.each(results@);
    let mut n: u64 = 0;
    for i in 0..results.len()
        invariant
            values == counter.each(results@),
            n == int_sum(values.take(i as int)),
    {
        let value = counter.get(&results[i]);
        proof {
            assert(values.take(i + 1).drop_last() =~= values.take(i as int));
            int_sum_grows(values, i + 1);
        }
        match n.checked_add(value) {
            Some(more) => {
                n = more;
            },
            None => {
                return None;
            },
        }
    }
    assert(values.take(values.len() as int) =~= values);
    if n <= max {
        Some(n)
    } else {
        None
    }
}

/// The sum of a metric over `results` divided by the number of samples.
fn smooth<N: Floats>(results: &Vec<Metrics<N::Single>>, level: Level) -> (r: N::Single)
    requires
        total::<N>(),
    ensures
        share_is::<N>(level.each(results@), MEASURES, r),
{
    let mut values: Vec<N::Single> = Vec::new();
    for i in 0..results.len()
        invariant
            values@ == level.each(results@).take(i as int),
    {
        values.push(level.get(&results[i]));
    }
    assert(values@ =~= level.each(results@));
    share::<N>(&values, MEASURES)
}

proof fn summable_prefix(hists: Seq<HistogramView>, n: int)
    requires
        summable(hists),
        0 <= n <= hists.len(),
    ensures
        summable(hists.take(n)),
    decreases hists.len(),
{
    if n < hists.len() {
        if hists.len() > 1 {
            summable_prefix(hists.drop_last(), n);
            assert(hists.drop_last().take(n) =~= hists.take(n));
        }
    } else {
        assert(hists.take(n) =~= hists);
    }
}

fn checked_hist<F>(results: &Vec<Metrics<F>>) -> (r: Option<MetricHistogram>)
    requires
        histograms_wf(results@),
    ensures
        r is Some <==> summable(histograms(results@)),
        r matches Some(h) ==> h.wf() && h@ == sum_all(histograms(results@)),
{
    let ghost hists = histograms(results@);
    if results.len() == 0 {
        return Some(Default::default());
    }
    let mut acc = results[0].ane_bw_hist.clone();
    assert(results@[0].ane_bw_hist.wf());
    assert(hists.take(1)[0] == acc@);
    for i in 1..results.len()
        invariant
            histograms_wf(results@),
            hists == histograms(results@),
            acc.wf(),
            acc@ == sum_all(hists.take(i as int)),
            summable(hists.take(i as int)),
    {
        let ghost upto = hists.take(i + 1);
        proof {
            assert(upto.drop_last() =~= hists.take(i as int));
            assert(upto.last() == results@[i as int].ane_bw_hist@);
            assert(results@[i as int].ane_bw_hist.wf());
        }
        match checked_sum_hist(&acc, &results[i].ane_bw_hist) {
            Some(h) => {
                acc = h;
            },
            None => {
                proof {
                    assert(!summable(upto));
                    if summable(hists) {
                        summable_prefix(hists, i + 1);
                    }
                }
                return None;
            },
        }
    }
    assert(hists.take(hists.len() as int) =~= hists);
    Some(acc)
}

/// The quotient of a sum by the number of samples.
fn smooth_u64(sum: u64) -> (r: u64)
    ensures
        r == sum as int / MEASURES as int,
{
    let r = zero_div(sum, MEASURES as u64);
    proof {
        zero_div_of_u64(sum, MEASURES as u64, r);
    }
    r
}

/// The quotient of a sum of frequencies by the number of samples.
fn smooth_u32(sum: u32) -> (r: u32)
    ensures
        r == sum as int / MEASURES as int,
{
    let r = zero_div(sum, MEASURES as u32);
    proof {
        zero_div_of_u32(sum, MEASURES as u32, r);
    }
    r
}

/// Smooths `results` into one set of metrics, and adds to it what was measured once. Gives
/// nothing where a sum over the results would not fit.
///
/// `power` is the power of the whole system where it could be read.
pub fn summarize<N: Floats>(
    results: &Vec<Metrics<N::Single>>,
    memory: MemMetrics,
    temp: TempMetrics<N::Single>,
    power: Option<N::Single>,
) -> (r: Option<Metrics<N::Single>>)
    requires
        total::<N>(),
        histograms_wf(results@),
    ensures
        r is Some <==> summary_ok(results@),
        r matches Some(m) ==> summary_is::<N>(results@, memory, temp, power, m),
{
    let clocks = (
        checked_sum(results, Counter::EcpuFreq, u32::MAX as u64),
        checked_sum(results, Counter::PcpuFreq, u32::MAX as u64),
        checked_sum(results, Counter::GpuFreq, u32::MAX as u64),
    );
    let moved = (
        checked_sum(results, Counter::SysRead, u64::MAX),
        checked_sum(results, Counter::SysWrite, u64::MAX),
        checked_sum(results, Counter::AneRead, u64::MAX),
        checked_sum(results, Counter::AneWrite, u64::MAX),
    );
    let (ecpu, pcpu, gpu) = match clocks {
        (Some(a), Some(b), Some(c)) => (a, b, c),
        _ => {
            return None;
        },
    };
    let (sys_rd, sys_wr, ane_rd, ane_wr) = match moved {
        (Some(a), Some(b), Some(c), Some(d)) => (a, b, c, d),
        _ => {
            return None;
        },
    };
    let hist = match checked_hist(results) {
        Some(h) => h,
        None => {
            return None;
        },
    };
    let cpu_power = smooth::<N>(results, Level::CpuPower);
    let gpu_power = smooth::<N>(results, Level::GpuPower);
    let ane_power = smooth::<N>(results, Level::AnePower);
    let two = cpu_power + gpu_power;
    let all_power = two + ane_power;
    assert(call_ensures(<N::Single as Add>::add, (cpu_power, gpu_power), two));
    let sys_power = match power {
        Some(watts) => larger(watts, all_power),
        None => Default::default(),
    };
    Some(
        Metrics {
            temp,
            memory,
            ecpu_usage: (smooth_u32(ecpu as u32), smooth::<N>(results, Level::EcpuPart)),
            pcpu_usage: (smooth_u32(pcpu as u32), smooth::<N>(results, Level::PcpuPart)),
            gpu_usage: (smooth_u32(gpu as u32), smooth::<N>(results, Level::GpuPart)),
            cpu_power,
            gpu_power,
            ane_power,
            all_power,
            sys_power,
            ane_rd_bw: smooth_u64(ane_rd),
            ane_wr_bw: smooth_u64(ane_wr),
            sys_rd_bw: smooth_u64(sys_rd),
            sys_wr_bw: smooth_u64(sys_wr),
            ane_bw_hist: zero_div_hist(&hist, MEASURES as u64),
        },
    )
}

proof fn int_sum_between(s: Seq<int>, lo: int, hi: int)
    requires
        forall|i: int| 0 <= i < s.len() ==> lo <= #[trigger] s[i] <= hi,
    ensures
        lo * s.len() <= int_sum(s) <= hi * s.len(),
    decreases s.len(),
{
    if s.len() > 0 {
        let n = s.len() as int;
        int_sum_between(s.drop_last(), lo, hi);
        assert(lo * n == lo * (n - 1) + lo && hi * n == hi * (n - 1) + hi) by (nonlinear_arith);
    }
}

/// A smoothed counter stays between the lowest and the highest value that it had in the
/// samples.
pub proof fn smoothing_stays_between<N: Floats>(
    results: Seq<Metrics<N::Single>>,
    memory: MemMetrics,
    temp: TempMetrics<N::Single>,
    power: Option<N::Single>,
    r: Metrics<N::Single>,
    counter: Counter,
    lo: int,
    hi: int,
)
    requires
        summary_is::<N>(results, memory, temp, power, r),
        results.len() == MEASURES,
        forall|i: int| 0 <= i < results.len() ==> lo <= counter.of(#[trigger] results[i]) <= hi,
    ensures
        lo <= counter.of(r) <= hi,
{
    int_sum_between(counter.each(results), lo, hi);
    assert(counter.of(r) == int_sum(counter.each(results)) / MEASURES as int);
}

/// Smoothing samples that agree changes nothing: where a counter is the same in all of
/// them it stays so, and so does the histogram, given that its labels are distinct.
pub proof fn smoothing_keeps_what_is_steady<N: Floats>(
    results: Seq<Metrics<N::Single>>,
    memory: MemMetrics,
    temp: TempMetrics<N::Single>,
    power: Option<N::Single>,
    r: Metrics<N::Single>,
)
    requires
        summary_is::<N>(results, memory, temp, power, r),
        results.len() == MEASURES,
    ensures
        forall|counter: Counter|
            (forall|i: int|
                0 <= i < results.len() ==> #[trigger] counter.of(results[i]) == counter.of(
                    results[0],
                )) ==> #[trigger] counter.of(r) == counter.of(results[0]),
        ({
            let h = results[0].ane_bw_hist@;
            h.wf() && h.labels.no_duplicates() && (forall|i: int|
                0 <= i < results.len() ==> (#[trigger] results[i]).ane_bw_hist@ == h)
        }) ==> r.ane_bw_hist@ == results[0].ane_bw_hist@,
{
    assert forall|counter: Counter|
        (forall|i: int|
            0 <= i < results.len() ==> #[trigger] counter.of(results[i]) == counter.of(
                results[0],
            )) implies #[trigger] counter.of(r) == counter.of(results[0]) by {
        let v = counter.of(results[0]);
        smoothing_stays_between::<N>(results, memory, temp, power, r, counter, v, v);
    }
    let h = results[0].ane_bw_hist@;
    if h.wf() && h.labels.no_duplicates() && (forall|i: int|
        0 <= i < results.len() ==> (#[trigger] results[i]).ane_bw_hist@ == h) {
        mean_of_equal_histograms(histograms(results), h);
    }
}

/// The power of the whole system is either the one that was read or the one of the parts;
/// where none was read it is zero.
pub proof fn system_power_is_read_or_summed<N: Floats>(
    results: Seq<Metrics<N::Single>>,
    memory: MemMetrics,
    temp: TempMetrics<N::Single>,
    power: Option<N::Single>,
    r: Metrics<N::Single>,
)
    requires
        summary_is::<N>(results, memory, temp, power, r),
    ensures
        match power {
            Some(watts) => r.sys_power == watts || r.sys_power == r.all_power,
            None => is_zero(r.sys_power),
        },
{
}

proof fn sum_all_weights(hists: Seq<HistogramView>, label: Seq<char>)
    requires
        forall|i: int| 0 <= i < hists.len() ==> (#[trigger] hists[i]).wf(),
    ensures
        sum_all(hists).wf(),
        sum_all(hists).weight(label) == int_sum(
            hists.map_values(|h: HistogramView| h.weight(label)),
        ),
    decreases hists.len(),
{
    let weights = hists.map_values(|h: HistogramView| h.weight(label));
    if hists.len() > 0 {
        let before = hists.drop_last();
        assert forall|i: int| 0 <= i < before.len() implies (#[trigger] before[i]).wf() by {
            assert(before[i] == hists[i]);
        }
        sum_all_weights(before, label);
        assert(weights.drop_last() =~= before.map_values(|h: HistogramView| h.weight(label)));
        assert(hists[hists.len() - 1].wf());
        if hists.len() == 1 {
            assert(sum_all(before).weight(label) == 0);
        } else {
            sum_keeps_labels(sum_all(before), hists.last());
            sum_adds_weights(sum_all(before), hists.last(), label);
        }
    }
}

/// Before it is divided, the histogram of several results holds for every label what
/// theirs hold for it together.
pub proof fn summed_histogram_holds_all_weights<F>(results: Seq<Metrics<F>>, label: Seq<char>)
    requires
        histograms_wf(results),
    ensures
        sum_all(histograms(results)).weight(label) == int_sum(
            results.map_values(|m: Metrics<F>| m.ane_bw_hist@.weight(label)),
        ),
{
    let hists = histograms(results);
    assert forall|i: int| 0 <= i < hists.len() implies (#[trigger] hists[i]).wf() by {
        assert(results[i].ane_bw_hist.wf());
    }
    sum_all_weights(hists, label);
    assert(hists.map_values(|h: HistogramView| h.weight(label)) =~= results.map_values(
        |m: Metrics<F>| m.ane_bw_hist@.weight(label),
    ));
}

/// `x` is the fourth part of `sum`, without the fraction.
pub open spec fn is_fourth(sum: int, x: int) -> bool {
    4 * x <= sum < 4 * x + 4
}

proof fn sum_of_each<A>(s: Seq<A>, f: spec_fn(A) -> int)
    ensures
        int_sum(s.map_values(f)) == int_total(s, f),
    decreases s.len(),
{
    if s.len() > 0 {
        sum_of_each(s.drop_last(), f);
        assert(s.map_values(f).drop_last() =~= s.drop_last().map_values(f));
    }
}

proof fn sums_of_counters<F>(results: Seq<Metrics<F>>)
    ensures
        int_sum(Counter::EcpuFreq.each(results)) == int_total(
            results,
            |m: Metrics<F>| m.ecpu_usage.0 as int,
        ),
        int_sum(Counter::PcpuFreq.each(results)) == int_total(
            results,
            |m: Metrics<F>| m.pcpu_usage.0 as int,
        ),
        int_sum(Counter::GpuFreq.each(results)) == int_total(
            results,
            |m: Metrics<F>| m.gpu_usage.0 as int,
        ),
        int_sum(Counter::SysRead.each(results)) == int_total(
            results,
            |m: Metrics<F>| m.sys_rd_bw as int,
        ),
        int_sum(Counter::SysWrite.each(results)) == int_total(
            results,
            |m: Metrics<F>| m.sys_wr_bw as int,
        ),
        int_sum(Counter::AneRead.each(results)) == int_total(
            results,
            |m: Metrics<F>| m.ane_rd_bw as int,
        ),
        int_sum(Counter::AneWrite.each(results)) == int_total(
            results,
            |m: Metrics<F>| m.ane_wr_bw as int,
        ),
{
    let ecpu = |m: Metrics<F>| m.ecpu_usage.0 as int;
    let pcpu = |m: Metrics<F>| m.pcpu_usage.0 as int;
    let gpu = |m: Metrics<F>| m.gpu_usage.0 as int;
    let sys_rd = |m: Metrics<F>| m.sys_rd_bw as int;
    let sys_wr = |m: Metrics<F>| m.sys_wr_bw as int;
    let ane_rd = |m: Metrics<F>| m.ane_rd_bw as int;
    let ane_wr = |m: Metrics<F>| m.ane_wr_bw as int;
    sum_of_each(results, ecpu);
    sum_of_each(results, pcpu);
    sum_of_each(results, gpu);
    sum_of_each(results, sys_rd);
    sum_of_each(results, sys_wr);
    sum_of_each(results, ane_rd);
    sum_of_each(results, ane_wr);
    assert(Counter::EcpuFreq.each(results) =~= results.map_values(ecpu));
    assert(Counter::PcpuFreq.each(results) =~= results.map_values(pcpu));
    assert(Counter::GpuFreq.each(results) =~= results.map_values(gpu));
    assert(Counter::SysRead.each(results) =~= results.map_values(sys_rd));
    assert(Counter::SysWrite.each(results) =~= results.map_values(sys_wr));
    assert(Counter::AneRead.each(results) =~= results.map_values(ane_rd));
    assert(Counter::AneWrite.each(results) =~= results.map_values(ane_wr));
}

/// Every frequency and every bandwidth that `summarize` reports is the fourth part of what
/// all results together have of it: each of the results counts, and counts the same. What
/// was measured once is reported as it is.
pub proof fn smoothed_counters_are_fourths<N: Floats>(
    results: Vec<Metrics<N::Single>>,
    memory: MemMetrics,
    temp: TempMetrics<N::Single>,
    power: Option<N::Single>,
    r: Metrics<N::Single>,
)
    requires
        call_ensures(summarize::<N>, (&results, memory, temp, power), Some(r)),
    ensures
        is_fourth(
            int_total(results@, |m: Metrics<N::Single>| m.ecpu_usage.0 as int),
            r.ecpu_usage.0 as int,
        ),
        is_fourth(
            int_total(results@, |m: Metrics<N::Single>| m.pcpu_usage.0 as int),
            r.pcpu_usage.0 as int,
        ),
        is_fourth(
            int_total(results@, |m: Metrics<N::Single>| m.gpu_usage.0 as int),
            r.gpu_usage.0 as int,
        ),
        is_fourth(
            int_total(results@, |m: Metrics<N::Single>| m.sys_rd_bw as int),
            r.sys_rd_bw as int,
        ),
        is_fourth(
            int_total(results@, |m: Metrics<N::Single>| m.sys_wr_bw as int),
            r.sys_wr_bw as int,
        ),
        is_fourth(
            int_total(results@, |m: Metrics<N::Single>| m.ane_rd_bw as int),
            r.ane_rd_bw as int,
        ),
        is_fourth(
            int_total(results@, |m: Metrics<N::Single>| m.ane_wr_bw as int),
            r.ane_wr_bw as int,
        ),
        r.memory == memory,
        r.temp == temp,
{
    sums_of_counters(results@);
}

proof fn raised_total<A>(a: Seq<A>, b: Seq<A>, k: int, f: spec_fn(A) -> int, by: int)
    requires
        a.len() == b.len(),
        0 <= k < a.len(),
        forall|i: int| 0 <= i < a.len() && i != k ==> f(#[trigger] a[i]) == f(b[i]),
        f(b[k]) == f(a[k]) + by,
    ensures
        int_total(b, f) == int_total(a, f) + by,
    decreases a.len(),
{
    let x = a.drop_last();
    let y = b.drop_last();
    if k == a.len() - 1 {
        assert forall|i: int| 0 <= i < x.len() implies f(#[trigger] x[i]) == f(y[i]) by {
            assert(f(a[i]) == f(b[i]));
        }
        same_int_total(x, f, y, f);
    } else {
        assert forall|i: int| 0 <= i < x.len() && i != k implies f(#[trigger] x[i]) == f(y[i]) by {
            assert(f(a[i]) == f(b[i]));
        }
        raised_total(x, y, k, f, by);
        assert(f(a[a.len() - 1]) == f(b[a.len() - 1]));
    }
}

/// `b` is `a` with what `f` gives raised by four in one of the results, whichever it is.
pub open spec fn raised_by_four<A>(a: Seq<A>, b: Seq<A>, k: int, f: spec_fn(A) -> int) -> bool {
    &&& a.len() == b.len()
    &&& 0 <= k < a.len()
    &&& forall|i: int| 0 <= i < a.len() && i != k ==> f(#[trigger] a[i]) == f(b[i])
    &&& f(b[k]) == f(a[k]) + 4
}

/// Raising a frequency or a bandwidth by four in any one of the results raises the smoothed
/// one by exactly one.
pub proof fn every_result_moves_the_counters<N: Floats>(
    a: Vec<Metrics<N::Single>>,
    b: Vec<Metrics<N::Single>>,
    k: int,
    memory: MemMetrics,
    temp: TempMetrics<N::Single>,
    power: Option<N::Single>,
    r: Metrics<N::Single>,
    s: Metrics<N::Single>,
)
    requires
        call_ensures(summarize::<N>, (&a, memory, temp, power), Some(r)),
        call_ensures(summarize::<N>, (&b, memory, temp, power), Some(s)),
    ensures
        raised_by_four(a@, b@, k, |m: Metrics<N::Single>| m.ecpu_usage.0 as int)
            ==> s.ecpu_usage.0 == r.ecpu_usage.0 + 1,
        raised_by_four(a@, b@, k, |m: Metrics<N::Single>| m.pcpu_usage.0 as int)
            ==> s.pcpu_usage.0 == r.pcpu_usage.0 + 1,
        raised_by_four(a@, b@, k, |m: Metrics<N::Single>| m.gpu_usage.0 as int)
            ==> s.gpu_usage.0 == r.gpu_usage.0 + 1,
        raised_by_four(a@, b@, k, |m: Metrics<N::Single>| m.sys_rd_bw as int) ==> s.sys_rd_bw
            == r.sys_rd_bw + 1,
        raised_by_four(a@, b@, k, |m: Metrics<N::Single>| m.sys_wr_bw as int) ==> s.sys_wr_bw
            == r.sys_wr_bw + 1,
        raised_by_four(a@, b@, k, |m: Metrics<N::Single>| m.ane_rd_bw as int) ==> s.ane_rd_bw
            == r.ane_rd_bw + 1,
        raised_by_four(a@, b@, k, |m: Metrics<N::Single>| m.ane_wr_bw as int) ==> s.ane_wr_bw
            == r.ane_wr_bw + 1,
{
    smoothed_counters_are_fourths::<N>(a, memory, temp, power, r);
    smoothed_counters_are_fourths::<N>(b, memory, temp, power, s);
    let ecpu = |m: Metrics<N::Single>| m.ecpu_usage.0 as int;
    let pcpu = |m: Metrics<N::Single>| m.pcpu_usage.0 as int;
    let gpu = |m: Metrics<N::Single>| m.gpu_usage.0 as int;
    let sys_rd = |m: Metrics<N::Single>| m.sys_rd_bw as int;
    let sys_wr = |m: Metrics<N::Single>| m.sys_wr_bw as int;
    let ane_rd = |m: Metrics<N::Single>| m.ane_rd_bw as int;
    let ane_wr = |m: Metrics<N::Single>| m.ane_wr_bw as int;
    if raised_by_four(a@, b@, k, ecpu) {
        raised_total(a@, b@, k, ecpu, 4);
    }
    if raised_by_four(a@, b@, k, pcpu) {
        raised_total(a@, b@, k, pcpu, 4);
    }
    if raised_by_four(a@, b@, k, gpu) {
        raised_total(a@, b@, k, gpu, 4);
    }
    if raised_by_four(a@, b@, k, sys_rd) {
        raised_total(a@, b@, k, sys_rd, 4);
    }
    if raised_by_four(a@, b@, k, sys_wr) {
        raised_total(a@, b@, k, sys_wr, 4);
    }
    if raised_by_four(a@, b@, k, ane_rd) {
        raised_total(a@, b@, k, ane_rd, 4);
    }
    if raised_by_four(a@, b@, k, ane_wr) {
        raised_total(a@, b@, k, ane_wr, 4);
    }
}

proof fn smoothed_of_exact<N: Floats>(
    results: Seq<Metrics<N::Single>>,
    level: Level,
    f: spec_fn(Metrics<N::Single>) -> real,
    r: N::Single,
    single: spec_fn(N::Single) -> real,
    double: spec_fn(N::Double) -> real,
)
    requires
        exact::<N>(single, double),
        forall|m: Metrics<N::Single>| #[trigger] f(m) == single(level.of(m)),
        share_is::<N>(level.each(results), MEASURES, r),
    ensures
        single(r) * (4 as real) == real_total(results, f),
{
    share_of_exact::<N>(level.each(results), MEASURES, r, single, double);
    let each = level.each(results);
    assert forall|i: int| 0 <= i < each.len() implies single(#[trigger] each[i]) == f(
        results[i],
    ) by {}
    same_real_total(each, single, results, f);
}

/// Where arithmetic is exact, four times each part of a highest frequency and each power
/// that `summarize` reports is what all results together have of it. The power of the
/// parts is the sum of theirs. That of the whole system is the larger one of what was read
/// and of that sum, and zero where none was read.
pub proof fn smoothed_levels_are_fourths<N: Floats>(
    results: Vec<Metrics<N::Single>>,
    memory: MemMetrics,
    temp: TempMetrics<N::Single>,
    power: Option<N::Single>,
    single: spec_fn(N::Single) -> real,
    double: spec_fn(N::Double) -> real,
    r: Metrics<N::Single>,
)
    requires
        exact::<N>(single, double),
        call_ensures(summarize::<N>, (&results, memory, temp, power), Some(r)),
    ensures
        single(r.ecpu_usage.1) * (4 as real) == real_total(
            results@,
            |m: Metrics<N::Single>| single(m.ecpu_usage.1),
        ),
        single(r.pcpu_usage.1) * (4 as real) == real_total(
            results@,
            |m: Metrics<N::Single>| single(m.pcpu_usage.1),
        ),
        single(r.gpu_usage.1) * (4 as real) == real_total(
            results@,
            |m: Metrics<N::Single>| single(m.gpu_usage.1),
        ),
        single(r.cpu_power) * (4 as real) == real_total(
            results@,
            |m: Metrics<N::Single>| single(m.cpu_power),
        ),
        single(r.gpu_power) * (4 as real) == real_total(
            results@,
            |m: Metrics<N::Single>| single(m.gpu_power),
        ),
        single(r.ane_power) * (4 as real) == real_total(
            results@,
            |m: Metrics<N::Single>| single(m.ane_power),
        ),
        single(r.all_power) == single(r.cpu_power) + single(r.gpu_power) + single(r.ane_power),
        match power {
            Some(watts) => {
                &&& single(r.sys_power) >= single(watts)
                &&& single(r.sys_power) >= single(r.all_power)
                &&& r.sys_power == watts || r.sys_power == r.all_power
            },
            None => single(r.sys_power) == 0 as real,
        },
{
    let s = single;
    let d = double;
    let ecpu = |m: Metrics<N::Single>| single(m.ecpu_usage.1);
    let pcpu = |m: Metrics<N::Single>| single(m.pcpu_usage.1);
    let gpu = |m: Metrics<N::Single>| single(m.gpu_usage.1);
    let cpu_power = |m: Metrics<N::Single>| single(m.cpu_power);
    let gpu_power = |m: Metrics<N::Single>| single(m.gpu_power);
    let ane_power = |m: Metrics<N::Single>| single(m.ane_power);
    smoothed_of_exact::<N>(results@, Level::EcpuPart, ecpu, r.ecpu_usage.1, s, d);
    smoothed_of_exact::<N>(results@, Level::PcpuPart, pcpu, r.pcpu_usage.1, s, d);
    smoothed_of_exact::<N>(results@, Level::GpuPart, gpu, r.gpu_usage.1, s, d);
    smoothed_of_exact::<N>(results@, Level::CpuPower, cpu_power, r.cpu_power, s, d);
    smoothed_of_exact::<N>(results@, Level::GpuPower, gpu_power, r.gpu_power, s, d);
    smoothed_of_exact::<N>(results@, Level::AnePower, ane_power, r.ane_power, s, d);
    if let Some(watts) = power {
        larger_of_exact(watts, r.all_power, r.sys_power, single);
    }
}

/// What all of `results` hold for `label` in their histograms.
pub open spec fn all_weight<F>(results: Seq<Metrics<F>>, label: Seq<char>) -> int {
    int_total(results, |m: Metrics<F>| m.ane_bw_hist@.weight(label))
}

proof fn weight_of_all<F>(results: Seq<Metrics<F>>, label: Seq<char>)
    requires
        histograms_wf(results),
    ensures
        sum_all(histograms(results)).wf(),
        sum_all(histograms(results)).weight(label) == all_weight(results, label),
{
    summed_histogram_holds_all_weights(results, label);
    let hists = histograms(results);
    assert forall|i: int| 0 <= i < hists.len() implies (#[trigger] hists[i]).wf() by {
        assert(results[i].ane_bw_hist.wf());
    }
    sum_all_weights(hists, label);
    sum_of_each(results, |m: Metrics<F>| m.ane_bw_hist@.weight(label));
}

proof fn labels_of_all(hists: Seq<HistogramView>, label: Seq<char>)
    requires
        forall|i: int| 0 <= i < hists.len() ==> (#[trigger] hists[i]).wf(),
    ensures
        sum_all(hists).wf(),
        sum_all(hists).labels.contains(label) <==> exists|i: int|
            0 <= i < hists.len() && (#[trigger] hists[i]).labels.contains(label),
        hists.len() > 0 ==> hists[0].labels.is_prefix_of(sum_all(hists).labels),
        hists.len() > 0 && hists[0].labels.no_duplicates() ==> sum_all(
            hists,
        ).labels.no_duplicates(),
    decreases hists.len(),
{
    if hists.len() == 0 {
        assert(!sum_all(hists).labels.contains(label));
    } else if hists.len() == 1 {
        assert(hists[0].wf());
        assert(hists[0].labels.take(hists[0].labels.len() as int) =~= hists[0].labels);
    } else {
        let before = hists.drop_last();
        let last = hists[hists.len() - 1];
        assert forall|i: int| 0 <= i < before.len() implies (#[trigger] before[i]).wf() by {
            assert(before[i] == hists[i]);
        }
        labels_of_all(before, label);
        assert(last.wf());
        sum_keeps_labels(sum_all(before), last);
        assert(before[0] == hists[0]);
        let a = hists[0].labels;
        let b = sum_all(before).labels;
        let c = sum_all(hists).labels;
        let n = a.len() as int;
        assert(a =~= c.take(n)) by {
            assert(a == b.take(n) && b == c.take(b.len() as int));
            assert(c.take(b.len() as int).take(n) =~= c.take(n));
        }
        if sum_all(hists).labels.contains(label) {
            if b.contains(label) {
                let i = choose|i: int|
                    0 <= i < before.len() && (#[trigger] before[i]).labels.contains(label);
                assert(hists[i].labels.contains(label));
            } else {
                assert(last.labels.contains(label));
            }
        }
        if exists|i: int| 0 <= i < hists.len() && (#[trigger] hists[i]).labels.contains(label) {
            let i = choose|i: int|
                0 <= i < hists.len() && (#[trigger] hists[i]).labels.contains(label);
            if i < hists.len() - 1 {
                assert(before[i].labels.contains(label));
            }
        }
    }
}

/// The histogram that `summarize` reports has the labels of the results' histograms, those
/// of the first one in front and none of them twice, and for each label the fourth part of
/// what all of them hold for it. No label may be twice in the first one.
pub proof fn smoothed_histogram_holds_fourths<N: Floats>(
    results: Vec<Metrics<N::Single>>,
    memory: MemMetrics,
    temp: TempMetrics<N::Single>,
    power: Option<N::Single>,
    r: Metrics<N::Single>,
)
    requires
        histograms_wf(results@),
        results@.len() > 0,
        results@[0].ane_bw_hist@.labels.no_duplicates(),
        call_ensures(summarize::<N>, (&results, memory, temp, power), Some(r)),
    ensures
        r.ane_bw_hist.labels@.len() == r.ane_bw_hist.values@.len(),
        r.ane_bw_hist@.labels.no_duplicates(),
        results@[0].ane_bw_hist@.labels.is_prefix_of(r.ane_bw_hist@.labels),
        forall|label: Seq<char>| #[trigger]
            r.ane_bw_hist@.labels.contains(label) <==> exists|i: int|
                0 <= i < results@.len() && (#[trigger] results@[i]).ane_bw_hist@.labels.contains(
                    label,
                ),
        forall|i: int|
            0 <= i < r.ane_bw_hist.values@.len() ==> is_fourth(
                all_weight(results@, r.ane_bw_hist.labels@[i]@),
                (#[trigger] r.ane_bw_hist.values@[i]) as int,
            ),
{
    let hists = histograms(results@);
    let all = sum_all(hists);
    assert forall|i: int| 0 <= i < hists.len() implies (#[trigger] hists[i]).wf() by {
        assert(results@[i].ane_bw_hist.wf());
    }
    assert(hists[0] == results@[0].ane_bw_hist@);
    labels_of_all(hists, Seq::empty());
    assert(r.ane_bw_hist@ == all.divided(4));
    assert(r.ane_bw_hist@.labels == all.labels);
    assert forall|label: Seq<char>| #[trigger]
        r.ane_bw_hist@.labels.contains(label) <==> exists|i: int|
            0 <= i < results@.len() && (#[trigger] results@[i]).ane_bw_hist@.labels.contains(
                label,
            ) by {
        labels_of_all(hists, label);
        if r.ane_bw_hist@.labels.contains(label) {
            let i = choose|i: int|
                0 <= i < hists.len() && (#[trigger] hists[i]).labels.contains(label);
            assert(results@[i].ane_bw_hist@.labels.contains(label));
        }
        if exists|i: int|
            0 <= i < results@.len() && (#[trigger] results@[i]).ane_bw_hist@.labels.contains(
                label,
            ) {
            let i = choose|i: int|
                0 <= i < results@.len() && (#[trigger] results@[i]).ane_bw_hist@.labels.contains(
                    label,
                );
            assert(hists[i].labels.contains(label));
        }
    }
    assert forall|i: int| 0 <= i < r.ane_bw_hist.values@.len() implies is_fourth(
        all_weight(results@, r.ane_bw_hist.labels@[i]@),
        (#[trigger] r.ane_bw_hist.values@[i]) as int,
    ) by {
        let label = r.ane_bw_hist.labels@[i]@;
        assert(r.ane_bw_hist@.values[i] == r.ane_bw_hist.values@[i]);
        assert(r.ane_bw_hist@.labels[i] == label);
        weight_of_all(results@, label);
        weight_of_distinct(all, i);
        assert(r.ane_bw_hist@.values[i] == all.values[i] / 4);
    }
}

/// Where what was read of the power of the whole system is not a number, the power of the
/// parts is reported.
pub proof fn unreadable_power_is_not_reported<N: Floats>(
    results: Vec<Metrics<N::Single>>,
    memory: MemMetrics,
    temp: TempMetrics<N::Single>,
    watts: N::Single,
    r: Metrics<N::Single>,
)
    requires
        is_no_number(watts),
        call_ensures(summarize::<N>, (&results, memory, temp, Some(watts)), Some(r)),
    ensures
        r.sys_power == r.all_power,
{
}

/// Results can be smoothed whatever they hold, given that the histogram of each has a count
/// for each label.
pub proof fn any_results_can_be_smoothed<N: Floats>(
    results: Vec<Metrics<N::Single>>,
    memory: MemMetrics,
    temp: TempMetrics<N::Single>,
    power: Option<N::Single>,
)
    requires
        total::<N>(),
        forall|i: int|
            0 <= i < results@.len() ==> (#[trigger] results@[i]).ane_bw_hist.labels@.len()
                == results@[i].ane_bw_hist.values@.len(),
    ensures
        call_requires(summarize::<N>, (&results, memory, temp, power)),
{
    assert forall|i: int| 0 <= i < results@.len() implies #[trigger] results@[i].ane_bw_hist.wf() by {
        assert(results@[i].ane_bw_hist.labels@.len() == results@[i].ane_bw_hist.values@.len());
    }
}

/// Each part of a highest frequency and each power that `summarize` reports is added up in
/// the order of the results before it is divided, and the power of the parts is added up
/// from that of the processor on.
pub proof fn levels_are_added_in_order<N: Floats>(
    results: Vec<Metrics<N::Single>>,
    memory: MemMetrics,
    temp: TempMetrics<N::Single>,
    power: Option<N::Single>,
    r: Metrics<N::Single>,
)
    requires
        call_ensures(summarize::<N>, (&results, memory, temp, power), Some(r)),
    ensures
        share_is::<N>(
            results@.map_values(|m: Metrics<N::Single>| m.ecpu_usage.1),
            4,
            r.ecpu_usage.1,
        ),
        share_is::<N>(
            results@.map_values(|m: Metrics<N::Single>| m.pcpu_usage.1),
            4,
            r.pcpu_usage.1,
        ),
        share_is::<N>(
            results@.map_values(|m: Metrics<N::Single>| m.gpu_usage.1),
            4,
            r.gpu_usage.1,
        ),
        share_is::<N>(results@.map_values(|m: Metrics<N::Single>| m.cpu_power), 4, r.cpu_power),
        share_is::<N>(results@.map_values(|m: Metrics<N::Single>| m.gpu_power), 4, r.gpu_power),
        share_is::<N>(results@.map_values(|m: Metrics<N::Single>| m.ane_power), 4, r.ane_power),
        exists|two: N::Single|
            {
                &&& #[trigger] call_ensures(
                    <N::Single as Add>::add,
                    (r.cpu_power, r.gpu_power),
                    two,
                )
                &&& call_ensures(<N::Single as Add>::add, (two, r.ane_power), r.all_power)
            },
{
    let ecpu = |m: Metrics<N::Single>| m.ecpu_usage.1;
    let pcpu = |m: Metrics<N::Single>| m.pcpu_usage.1;
    let gpu = |m: Metrics<N::Single>| m.gpu_usage.1;
    let cpu_power = |m: Metrics<N::Single>| m.cpu_power;
    let gpu_power = |m: Metrics<N::Single>| m.gpu_power;
    let ane_power = |m: Metrics<N::Single>| m.ane_power;
    assert(Level::EcpuPart.each(results@) =~= results@.map_values(ecpu));
    assert(Level::PcpuPart.each(results@) =~= results@.map_values(pcpu));
    assert(Level::GpuPart.each(results@) =~= results@.map_values(gpu));
    assert(Level::CpuPower.each(results@) =~= results@.map_values(cpu_power));
    assert(Level::GpuPower.each(results@) =~= results@.map_values(gpu_power));
    assert(Level::AnePower.each(results@) =~= results@.map_values(ane_power));
}

/// `partial` are the sums of the histograms of the first results, of one more each time.
pub open spec fn partial_sums<F>(
    results: Seq<Metrics<F>>,
    partial: Seq<HistogramView>,
) -> bool {
    &&& partial.len() == results.len()
    &&& results.len() > 0 ==> partial[0] == results[0].ane_bw_hist@
    &&& forall|k: int|
        0 < k < results.len() ==> adds_up(
            partial[k - 1],
            results[k].ane_bw_hist@,
            results[k].ane_bw_hist@.values.len() as int,
            #[trigger] partial[k],
        )
}

proof fn sums_of_first<F>(results: Seq<Metrics<F>>) -> (partial: Seq<HistogramView>)
    requires
        histograms_wf(results),
    ensures
        partial_sums(results, partial),
        forall|k: int|
            0 <= k < results.len() ==> #[trigger] partial[k] == sum_all(
                histograms(results).take(k + 1),
            ),
{
    let hists = histograms(results);
    let partial = Seq::new(results.len(), |k: int| sum_all(hists.take(k + 1)));
    assert forall|i: int| 0 <= i < hists.len() implies (#[trigger] hists[i]).wf() by {
        assert(results[i].ane_bw_hist.wf());
    }
    if results.len() > 0 {
        assert(hists.take(1)[0] == results[0].ane_bw_hist@);
    }
    assert forall|k: int| 0 < k < results.len() implies adds_up(
        partial[k - 1],
        results[k].ane_bw_hist@,
        results[k].ane_bw_hist@.values.len() as int,
        #[trigger] partial[k],
    ) by {
        let upto = hists.take(k + 1);
        let before = hists.take(k);
        let h = hists[k];
        assert(upto.drop_last() =~= before);
        assert(upto.last() == h);
        assert(h == results[k].ane_bw_hist@);
        assert forall|i: int| 0 <= i < before.len() implies (#[trigger] before[i]).wf() by {
            assert(before[i] == hists[i]);
        }
        assert(hists[k].wf());
        labels_of_all(before, Seq::empty());
        merge_adds_up(sum_all(before), h, h.values.len() as int);
    }
    partial
}

/// The histogram that `summarize` reports has at each place the fourth part of what adding
/// up the histograms of the results, one after the other, leads to there; it is empty where
/// there are no results.
pub proof fn smoothed_histogram_adds_up<N: Floats>(
    results: Vec<Metrics<N::Single>>,
    memory: MemMetrics,
    temp: TempMetrics<N::Single>,
    power: Option<N::Single>,
    r: Metrics<N::Single>,
)
    requires
        histograms_wf(results@),
        call_ensures(summarize::<N>, (&results, memory, temp, power), Some(r)),
    ensures
        results@.len() == 0 ==> r.ane_bw_hist.values@.len() == 0,
        r.ane_bw_hist.labels@.len() == r.ane_bw_hist.values@.len(),
        results@.len() > 0 ==> exists|partial: Seq<HistogramView>|
            {
                let all = partial[results@.len() - 1];
                &&& #[trigger] partial_sums(results@, partial)
                &&& r.ane_bw_hist@.labels == all.labels
                &&& r.ane_bw_hist.values@.len() == all.values.len()
                &&& forall|i: int|
                    0 <= i < all.values.len() ==> is_fourth(
                        all.values[i],
                        (#[trigger] r.ane_bw_hist.values@[i]) as int,
                    )
            },
{
    let hists = histograms(results@);
    let sum = sum_all(hists);
    assert(r.ane_bw_hist@ == sum.divided(4));
    assert(r.ane_bw_hist@.values.len() == r.ane_bw_hist.values@.len());
    if results@.len() > 0 {
        let partial = sums_of_first(results@);
        let all = partial[results@.len() - 1];
        assert(hists.take(results@.len() as int) =~= hists);
        assert(all == sum);
        assert forall|i: int| 0 <= i < all.values.len() implies is_fourth(
            all.values[i],
            (#[trigger] r.ane_bw_hist.values@[i]) as int,
        ) by {
            assert(r.ane_bw_hist@.values[i] == r.ane_bw_hist.values@[i]);
            assert(r.ane_bw_hist@.values[i] == all.values[i] / 4);
        }
    }
}

/// No count of a sum of two or more histograms is too large for 64 bits.
pub open spec fn all_fit(partial: Seq<HistogramView>) -> bool {
    forall|k: int, i: int|
        0 < k < partial.len() && 0 <= i < (#[trigger] partial[k]).values.len()
            ==> #[trigger] partial[k].values[i] <= u64::MAX
}

proof fn summable_sums_fit(hists: Seq<HistogramView>, partial: Seq<HistogramView>)
    requires
        partial.len() == hists.len(),
        forall|k: int|
            0 <= k < hists.len() ==> #[trigger] partial[k] == sum_all(hists.take(k + 1)),
    ensures
        summable(hists) <==> all_fit(partial),
    decreases hists.len(),
{
    if hists.len() > 1 {
        let before = hists.drop_last();
        let fewer = partial.drop_last();
        let end = hists.len() - 1;
        assert forall|k: int| 0 <= k < before.len() implies #[trigger] fewer[k] == sum_all(
            before.take(k + 1),
        ) by {
            assert(fewer[k] == partial[k]);
            assert(before.take(k + 1) =~= hists.take(k + 1));
        }
        summable_sums_fit(before, fewer);
        assert(hists.take(end + 1) =~= hists);
        let last = partial[end];
        assert(last == sum_all(hists));
        if all_fit(partial) {
            assert forall|k: int, i: int|
                0 < k < fewer.len() && 0 <= i < (
                #[trigger] fewer[k]).values.len() implies #[trigger] fewer[k].values[i]
                <= u64::MAX by {
                assert(fewer[k] == partial[k]);
                assert(partial[k].values[i] <= u64::MAX);
            }
            assert forall|i: int| 0 <= i < last.values.len() implies #[trigger] last.values[i]
                <= u64::MAX by {
                assert(partial[end].values[i] <= u64::MAX);
            }
        }
        if summable(hists) {
            assert forall|k: int, i: int|
                0 < k < partial.len() && 0 <= i < (
                #[trigger] partial[k]).values.len() implies #[trigger] partial[k].values[i]
                <= u64::MAX by {
                if k < end {
                    assert(fewer[k] == partial[k]);
                    assert(fewer[k].values[i] <= u64::MAX);
                } else {
                    assert(last.values[i] <= u64::MAX);
                }
            }
        }
    }
}

/// `summarize` gives nothing exactly where a sum over all results outgrows its type: one of
/// the frequencies 32 bits, or one of the bandwidths or a count of the histograms, added up
/// one after the other, 64 bits.
pub proof fn only_sums_that_do_not_fit_are_refused<N: Floats>(
    results: Vec<Metrics<N::Single>>,
    memory: MemMetrics,
    temp: TempMetrics<N::Single>,
    power: Option<N::Single>,
    r: Option<Metrics<N::Single>>,
)
    requires
        histograms_wf(results@),
        call_ensures(summarize::<N>, (&results, memory, temp, power), r),
    ensures
        exists|partial: Seq<HistogramView>|
            {
                &&& #[trigger] partial_sums(results@, partial)
                &&& r is Some <==> {
                    &&& int_total(results@, |m: Metrics<N::Single>| m.ecpu_usage.0 as int)
                        <= u32::MAX
                    &&& int_total(results@, |m: Metrics<N::Single>| m.pcpu_usage.0 as int)
                        <= u32::MAX
                    &&& int_total(results@, |m: Metrics<N::Single>| m.gpu_usage.0 as int)
                        <= u32::MAX
                    &&& int_total(results@, |m: Metrics<N::Single>| m.sys_rd_bw as int) <= u64::MAX
                    &&& int_total(results@, |m: Metrics<N::Single>| m.sys_wr_bw as int) <= u64::MAX
                    &&& int_total(results@, |m: Metrics<N::Single>| m.ane_rd_bw as int) <= u64::MAX
                    &&& int_total(results@, |m: Metrics<N::Single>| m.ane_wr_bw as int) <= u64::MAX
                    &&& all_fit(partial)
                }
            },
{
    sums_of_counters(results@);
    let partial = sums_of_first(results@);
    summable_sums_fit(histograms(results@), partial);
    assert(partial_sums(results@, partial));
}

} // verus!
