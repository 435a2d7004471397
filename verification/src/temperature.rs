//! Mean temperatures of the processor and of the graphics unit.
use crate::arith::{
    exact, int_total, mean_between, real_total, same_real_total, share, share_is, share_of_exact,
    total, Floats,
};
use crate::smc::{stored_as, word, word_at, word_has_digits};
use crate::text::starts_with;
use vstd::prelude::*;

verus! {

/// Mean temperatures in degrees Celsius.
#[derive(Debug)]
pub struct TempMetrics<F> {
    pub cpu_temp_avg: F,
    pub gpu_temp_avg: F,
}

impl<F: Default> Default for TempMetrics<F> {
    fn default() -> (r: TempMetrics<F>)
        ensures
            call_ensures(F::default, (), r.cpu_temp_avg),
            call_ensures(F::default, (), r.gpu_temp_avg),
    {
        TempMetrics { cpu_temp_avg: Default::default(), gpu_temp_avg: Default::default() }
    }
}

/// Every value is at least four bytes long.
pub open spec fn are_words(data: Seq<Vec<u8>>) -> bool {
    forall|i: int| 0 <= i < data.len() ==> #[trigger] data[i]@.len() >= 4
}

/// `values` are the numbers that the first four bytes of each of `data` represent.
pub open spec fn decoded<N: Floats>(data: Seq<Vec<u8>>, values: Seq<N::Single>) -> bool {
    &&& values.len() == data.len()
    &&& forall|i: int|
        0 <= i < data.len() ==> call_ensures(
            N::single_of_bits,
            (word_at(data[i]@) as u32,),
            #[trigger] values[i],
        )
}

/// `r` is the mean of the numbers in `data`, zero where there are none.
pub open spec fn mean_of_words<N: Floats>(data: Seq<Vec<u8>>, r: N::Single) -> bool {
    exists|values: Seq<N::Single>| #[trigger]
        decoded::<N>(data, values) && share_is::<N>(values, data.len() as usize, r)
}

fn word_mean<N: Floats>(data: &Vec<Vec<u8>>) -> (r: N::Single)
    requires
        total::<N>(),
        are_words(data@),
    ensures
        mean_of_words::<N>(data@, r),
{
    let mut values: Vec<N::Single> = Vec::new();
    for i in 0..data.len()
        invariant
            are_words(data@),
            values@.len() == i,
            forall|j: int|
                0 <= j < i ==> call_ensures(
                    N::single_of_bits,
                    (word_at(data@[j]@) as u32,),
                    #[trigger] values@[j],
                ),
    {
        values.push(N::single_of_bits(word(&data[i])));
    }
    let r = share::<N>(&values, values.len());
    assert(decoded::<N>(data@, values@));
    r
}

/// Mean temperatures from the values of the controller's sensors, as stored: `cpu` of
/// those of the processor, `gpu` of those of the graphics unit. A mean over no sensor is
/// zero.
pub fn get_temp_smc<N: Floats>(cpu: &Vec<Vec<u8>>, gpu: &Vec<Vec<u8>>) -> (r: TempMetrics<
    N::Single,
>)
    requires
        total::<N>(),
        are_words(cpu@),
        are_words(gpu@),
    ensures
        mean_of_words::<N>(cpu@, r.cpu_temp_avg),
        mean_of_words::<N>(gpu@, r.gpu_temp_avg),
{
    TempMetrics { cpu_temp_avg: word_mean::<N>(cpu), gpu_temp_avg: word_mean::<N>(gpu) }
}

/// A sensor of this name is at the processor.
pub open spec fn is_cpu_sensor(name: Seq<char>) -> bool {
    "pACC MTR Temp Sensor"@.is_prefix_of(name) || "eACC MTR Temp Sensor"@.is_prefix_of(name)
}

/// A sensor of this name is at the graphics unit.
pub open spec fn is_gpu_sensor(name: Seq<char>) -> bool {
    "GPU MTR Temp Sensor"@.is_prefix_of(name)
}

/// No sensor is both at the processor and at the graphics unit.
pub proof fn one_place(name: Seq<char>)
    ensures
        !(is_cpu_sensor(name) && is_gpu_sensor(name)),
{
    reveal_strlit("pACC MTR Temp Sensor");
    reveal_strlit("eACC MTR Temp Sensor");
    reveal_strlit("GPU MTR Temp Sensor");
    if is_cpu_sensor(name) && is_gpu_sensor(name) {
        assert("GPU MTR Temp Sensor"@[0] == name.subrange(0, 19)[0]);
        if "pACC MTR Temp Sensor"@.is_prefix_of(name) {
            assert("pACC MTR Temp Sensor"@[0] == name.subrange(0, 20)[0]);
        } else {
            assert("eACC MTR Temp Sensor"@[0] == name.subrange(0, 20)[0]);
        }
    }
}

/// The values of the sensors at the processor, in order.
pub open spec fn cpu_values<F>(metrics: Seq<(String, F)>) -> Seq<F> {
    metrics.filter(|m: (String, F)| is_cpu_sensor(m.0@)).map_values(|m: (String, F)| m.1)
}

/// The values of the sensors at the graphics unit, in order.
pub open spec fn gpu_values<F>(metrics: Seq<(String, F)>) -> Seq<F> {
    metrics.filter(|m: (String, F)| is_gpu_sensor(m.0@)).map_values(|m: (String, F)| m.1)
}

proof fn values_push<F>(metrics: Seq<(String, F)>, m: (String, F))
    ensures
        cpu_values(metrics.push(m)) == if is_cpu_sensor(m.0@) {
            cpu_values(metrics).push(m.1)
        } else {
            cpu_values(metrics)
        },
        gpu_values(metrics.push(m)) == if is_gpu_sensor(m.0@) {
            gpu_values(metrics).push(m.1)
        } else {
            gpu_values(metrics)
        },
{
    metrics.lemma_filter_push(m, |m: (String, F)| is_cpu_sensor(m.0@));
    metrics.lemma_filter_push(m, |m: (String, F)| is_gpu_sensor(m.0@));
    assert(cpu_values(metrics.push(m)) =~= if is_cpu_sensor(m.0@) {
        cpu_values(metrics).push(m.1)
    } else {
        cpu_values(metrics)
    });
    assert(gpu_values(metrics.push(m)) =~= if is_gpu_sensor(m.0@) {
        gpu_values(metrics).push(m.1)
    } else {
        gpu_values(metrics)
    });
}

/// `r` holds the mean temperatures of the named sensors `metrics`: of those at the
/// processor and of those at the graphics unit, each zero where there are none.
pub open spec fn hid_temp_is<N: Floats>(
    metrics: Seq<(String, N::Single)>,
    r: TempMetrics<N::Single>,
) -> bool {
    &&& share_is::<N>(cpu_values(metrics), cpu_values(metrics).len() as usize, r.cpu_temp_avg)
    &&& share_is::<N>(gpu_values(metrics), gpu_values(metrics).len() as usize, r.gpu_temp_avg)
}

/// Mean temperatures from the named sensors of the input subsystem. A mean over no sensor
/// is zero.
pub fn get_temp_hid<N: Floats>(metrics: &Vec<(String, N::Single)>) -> (r: TempMetrics<N::Single>)
    requires
        total::<N>(),
    ensures
        hid_temp_is::<N>(metrics@, r),
{
    let mut cpu: Vec<N::Single> = Vec::new();
    let mut gpu: Vec<N::Single> = Vec::new();
    proof {
        reveal_with_fuel(Seq::filter, 1);
        assert(cpu@ =~= cpu_values(metrics@.take(0)));
        assert(gpu@ =~= gpu_values(metrics@.take(0)));
    }
    for i in 0..metrics.len()
        invariant
            cpu@ == cpu_values(metrics@.take(i as int)),
            gpu@ == gpu_values(metrics@.take(i as int)),
    {
        proof {
            assert(metrics@.take(i + 1) =~= metrics@.take(i as int).push(metrics@[i as int]));
            values_push(metrics@.take(i as int), metrics@[i as int]);
            one_place(metrics@[i as int].0@);
        }
        let name = metrics[i].0.as_str();
        if starts_with(name, "pACC MTR Temp Sensor") || starts_with(name, "eACC MTR Temp Sensor") {
            cpu.push(metrics[i].1);
        } else if starts_with(name, "GPU MTR Temp Sensor") {
            gpu.push(metrics[i].1);
        }
    }
    assert(metrics@.take(metrics@.len() as int) =~= metrics@);
    TempMetrics {
        cpu_temp_avg: share::<N>(&cpu, cpu.len()),
        gpu_temp_avg: share::<N>(&gpu, gpu.len()),
    }
}

/// The sensors that are at the processor or at the graphics unit, in order.
pub open spec fn placed<F>(metrics: Seq<(String, F)>) -> Seq<(String, F)> {
    metrics.filter(|m: (String, F)| is_cpu_sensor(m.0@) || is_gpu_sensor(m.0@))
}

/// A sensor that is neither at the processor nor at the graphics unit adds to neither list
/// of values, wherever it stands.
pub proof fn other_sensor_adds_no_value<F>(
    before: Seq<(String, F)>,
    m: (String, F),
    after: Seq<(String, F)>,
)
    requires
        !is_cpu_sensor(m.0@),
        !is_gpu_sensor(m.0@),
    ensures
        cpu_values(before.push(m) + after) == cpu_values(before + after),
        gpu_values(before.push(m) + after) == gpu_values(before + after),
{
    let cpu = |m: (String, F)| is_cpu_sensor(m.0@);
    let gpu = |m: (String, F)| is_gpu_sensor(m.0@);
    before.lemma_filter_push(m, cpu);
    before.lemma_filter_push(m, gpu);
    Seq::filter_distributes_over_add(before.push(m), after, cpu);
    Seq::filter_distributes_over_add(before, after, cpu);
    Seq::filter_distributes_over_add(before.push(m), after, gpu);
    Seq::filter_distributes_over_add(before, after, gpu);
}

proof fn values_of_placed<F>(metrics: Seq<(String, F)>)
    ensures
        cpu_values(placed(metrics)) == cpu_values(metrics),
        gpu_values(placed(metrics)) == gpu_values(metrics),
    decreases metrics.len(),
{
    if metrics.len() == 0 {
        reveal_with_fuel(Seq::filter, 1);
        assert(placed(metrics) =~= metrics);
    } else {
        let before = metrics.drop_last();
        let m = metrics.last();
        assert(metrics =~= before.push(m));
        values_of_placed(before);
        before.lemma_filter_push(m, |m: (String, F)| is_cpu_sensor(m.0@) || is_gpu_sensor(m.0@));
        values_push(before, m);
        values_push(placed(before), m);
    }
}

/// Lists of sensors that differ only in sensors elsewhere lead to the same mean
/// temperatures.
pub proof fn other_sensors_change_nothing<N: Floats>(
    a: Seq<(String, N::Single)>,
    b: Seq<(String, N::Single)>,
    r: TempMetrics<N::Single>,
)
    requires
        placed(a) == placed(b),
    ensures
        cpu_values(a) == cpu_values(b),
        gpu_values(a) == gpu_values(b),
        hid_temp_is::<N>(a, r) <==> hid_temp_is::<N>(b, r),
{
    values_of_placed(a);
    values_of_placed(b);
}

/// `mean` is what exact arithmetic gives for the mean of `values`: as many of it as there
/// are values give their sum. Where there are none it is zero.
pub open spec fn mean_law<A>(values: Seq<A>, value: spec_fn(A) -> real, mean: real) -> bool {
    &&& values.len() > 0 ==> mean * (values.len() as real) == real_total(values, value)
    &&& values.len() == 0 ==> mean == 0 as real
}

/// The bytes `data` hold the number `temp`: with the digits that they are, its binary
/// representation.
pub open spec fn holds<N: Floats>(
    data: Vec<u8>,
    single: spec_fn(N::Single) -> real,
    temp: real,
) -> bool {
    forall|bits: u32, x: N::Single|
        stored_as(bits, data@) && #[trigger] call_ensures(N::single_of_bits, (bits,), x) ==> single(
            x,
        ) == temp
}

proof fn words_of_exact<N: Floats>(
    data: Seq<Vec<u8>>,
    temps: Seq<real>,
    single: spec_fn(N::Single) -> real,
    double: spec_fn(N::Double) -> real,
    r: N::Single,
)
    requires
        exact::<N>(single, double),
        data.len() <= usize::MAX,
        temps.len() == data.len(),
        forall|i: int| 0 <= i < data.len() ==> holds::<N>(#[trigger] data[i], single, temps[i]),
        mean_of_words::<N>(data, r),
    ensures
        mean_law(temps, |t: real| t, single(r)),
{
    let values = choose|values: Seq<N::Single>| #[trigger]
        decoded::<N>(data, values) && share_is::<N>(values, data.len() as usize, r);
    share_of_exact::<N>(values, data.len() as usize, r, single, double);
    let id = |t: real| t;
    assert forall|i: int| 0 <= i < values.len() implies single(#[trigger] values[i]) == id(
        temps[i],
    ) by {
        let bits = word_at(data[i]@) as u32;
        assert(call_ensures(N::single_of_bits, (bits,), values[i]));
        assert(0 <= word_at(data[i]@) <= u32::MAX);
        word_has_digits(data[i]@, bits);
        assert(holds::<N>(data[i], single, temps[i]));
    }
    same_real_total(values, single, temps, id);
}

/// Where arithmetic is exact, the temperatures that `get_temp_smc` reports are the means of
/// those that the sensors hold, of the processor and of the graphics unit apart: every
/// sensor counts the same, however many there are.
pub proof fn controller_sensors_count_alike<N: Floats>(
    cpu: Vec<Vec<u8>>,
    gpu: Vec<Vec<u8>>,
    cpu_temps: Seq<real>,
    gpu_temps: Seq<real>,
    single: spec_fn(N::Single) -> real,
    double: spec_fn(N::Double) -> real,
    r: TempMetrics<N::Single>,
)
    requires
        exact::<N>(single, double),
        cpu_temps.len() == cpu@.len(),
        gpu_temps.len() == gpu@.len(),
        forall|i: int|
            0 <= i < cpu@.len() ==> holds::<N>(#[trigger] cpu@[i], single, cpu_temps[i]),
        forall|i: int|
            0 <= i < gpu@.len() ==> holds::<N>(#[trigger] gpu@[i], single, gpu_temps[i]),
        call_ensures(get_temp_smc::<N>, (&cpu, &gpu), r),
    ensures
        mean_law(cpu_temps, |t: real| t, single(r.cpu_temp_avg)),
        mean_law(gpu_temps, |t: real| t, single(r.gpu_temp_avg)),
{
    assert(cpu.len() == cpu@.len() && gpu.len() == gpu@.len());
    words_of_exact::<N>(cpu@, cpu_temps, single, double, r.cpu_temp_avg);
    words_of_exact::<N>(gpu@, gpu_temps, single, double, r.gpu_temp_avg);
}

/// Where arithmetic is exact, the mean temperature of the controller's sensors is between
/// the lowest and the highest one; where all sensors hold the same temperature it is that
/// one.
pub proof fn mean_temperature_stays_between<N: Floats>(
    cpu: Vec<Vec<u8>>,
    gpu: Vec<Vec<u8>>,
    cpu_temps: Seq<real>,
    gpu_temps: Seq<real>,
    lo: real,
    hi: real,
    single: spec_fn(N::Single) -> real,
    double: spec_fn(N::Double) -> real,
    r: TempMetrics<N::Single>,
)
    requires
        exact::<N>(single, double),
        cpu_temps.len() == cpu@.len(),
        gpu_temps.len() == gpu@.len(),
        forall|i: int|
            0 <= i < cpu@.len() ==> holds::<N>(#[trigger] cpu@[i], single, cpu_temps[i]),
        forall|i: int|
            0 <= i < gpu@.len() ==> holds::<N>(#[trigger] gpu@[i], single, gpu_temps[i]),
        call_ensures(get_temp_smc::<N>, (&cpu, &gpu), r),
    ensures
        cpu@.len() > 0 && (forall|i: int|
            0 <= i < cpu_temps.len() ==> lo <= #[trigger] cpu_temps[i] && cpu_temps[i] <= hi)
            ==> lo <= single(r.cpu_temp_avg) && single(r.cpu_temp_avg) <= hi,
        gpu@.len() > 0 && (forall|i: int|
            0 <= i < gpu_temps.len() ==> lo <= #[trigger] gpu_temps[i] && gpu_temps[i] <= hi)
            ==> lo <= single(r.gpu_temp_avg) && single(r.gpu_temp_avg) <= hi,
{
    controller_sensors_count_alike::<N>(cpu, gpu, cpu_temps, gpu_temps, single, double, r);
    let id = |t: real| t;
    if cpu@.len() > 0 && (forall|i: int|
        0 <= i < cpu_temps.len() ==> lo <= #[trigger] cpu_temps[i] && cpu_temps[i] <= hi) {
        mean_between(cpu_temps, id, lo, hi, single(r.cpu_temp_avg));
    }
    if gpu@.len() > 0 && (forall|i: int|
        0 <= i < gpu_temps.len() ==> lo <= #[trigger] gpu_temps[i] && gpu_temps[i] <= hi) {
        mean_between(gpu_temps, id, lo, hi, single(r.gpu_temp_avg));
    }
}

/// How many of the sensors `metrics` have a name that `at` admits.
pub open spec fn sensors_at<F>(metrics: Seq<(String, F)>, at: spec_fn(Seq<char>) -> bool) -> int {
    int_total(
        metrics,
        |m: (String, F)|
            if at(m.0@) {
                1
            } else {
                0
            },
    )
}

/// The sum of the temperatures of those sensors.
pub open spec fn heat_at<F>(
    metrics: Seq<(String, F)>,
    at: spec_fn(Seq<char>) -> bool,
    single: spec_fn(F) -> real,
) -> real {
    real_total(
        metrics,
        |m: (String, F)|
            if at(m.0@) {
                single(m.1)
            } else {
                0 as real
            },
    )
}

/// `mean` is the mean temperature of the sensors that `at` admits: that many of it give
/// their sum. Where there are none it is zero.
pub open spec fn heat_law<F>(
    metrics: Seq<(String, F)>,
    at: spec_fn(Seq<char>) -> bool,
    single: spec_fn(F) -> real,
    mean: real,
) -> bool {
    let n = sensors_at(metrics, at);
    &&& n > 0 ==> mean * (n as real) == heat_at(metrics, at, single)
    &&& n == 0 ==> mean == 0 as real
}

proof fn values_at<F>(
    metrics: Seq<(String, F)>,
    cpu: spec_fn(Seq<char>) -> bool,
    gpu: spec_fn(Seq<char>) -> bool,
    single: spec_fn(F) -> real,
)
    requires
        forall|name: Seq<char>| #[trigger] cpu(name) <==> is_cpu_sensor(name),
        forall|name: Seq<char>| #[trigger] gpu(name) <==> is_gpu_sensor(name),
    ensures
        cpu_values(metrics).len() == sensors_at(metrics, cpu),
        gpu_values(metrics).len() == sensors_at(metrics, gpu),
        real_total(cpu_values(metrics), single) == heat_at(metrics, cpu, single),
        real_total(gpu_values(metrics), single) == heat_at(metrics, gpu, single),
    decreases metrics.len(),
{
    if metrics.len() == 0 {
        reveal_with_fuel(Seq::filter, 1);
    } else {
        let before = metrics.drop_last();
        let m = metrics.last();
        assert(metrics =~= before.push(m));
        values_at(before, cpu, gpu, single);
        values_push(before, m);
        assert(cpu(m.0@) <==> is_cpu_sensor(m.0@));
        assert(gpu(m.0@) <==> is_gpu_sensor(m.0@));
        assert(cpu_values(before).push(m.1).drop_last() =~= cpu_values(before));
        assert(gpu_values(before).push(m.1).drop_last() =~= gpu_values(before));
    }
}

/// Where arithmetic is exact, the temperatures that `get_temp_hid` reports are the means
/// over the sensors whose names begin as those at the processor do, and over those whose
/// names begin as those at the graphics unit do. Every such sensor counts the same.
pub proof fn named_sensors_count_alike<N: Floats>(
    metrics: Vec<(String, N::Single)>,
    single: spec_fn(N::Single) -> real,
    double: spec_fn(N::Double) -> real,
    r: TempMetrics<N::Single>,
)
    requires
        exact::<N>(single, double),
        call_ensures(get_temp_hid::<N>, (&metrics,), r),
    ensures
        heat_law(
            metrics@,
            |name: Seq<char>|
                "pACC MTR Temp Sensor"@.is_prefix_of(name) || "eACC MTR Temp Sensor"@.is_prefix_of(
                    name,
                ),
            single,
            single(r.cpu_temp_avg),
        ),
        heat_law(
            metrics@,
            |name: Seq<char>| "GPU MTR Temp Sensor"@.is_prefix_of(name),
            single,
            single(r.gpu_temp_avg),
        ),
{
    let cpu = |name: Seq<char>|
        "pACC MTR Temp Sensor"@.is_prefix_of(name) || "eACC MTR Temp Sensor"@.is_prefix_of(name);
    let gpu = |name: Seq<char>| "GPU MTR Temp Sensor"@.is_prefix_of(name);
    assert(metrics.len() == metrics@.len());
    values_at(metrics@, cpu, gpu, single);
    metrics@.lemma_filter_len(|m: (String, N::Single)| is_cpu_sensor(m.0@));
    metrics@.lemma_filter_len(|m: (String, N::Single)| is_gpu_sensor(m.0@));
    share_of_exact::<N>(
        cpu_values(metrics@),
        cpu_values(metrics@).len() as usize,
        r.cpu_temp_avg,
        single,
        double,
    );
    share_of_exact::<N>(
        gpu_values(metrics@),
        gpu_values(metrics@).len() as usize,
        r.gpu_temp_avg,
        single,
        double,
    );
}

/// Mean temperatures are defined for any named sensors, and for any values of the
/// controller that are at least four bytes long.
pub proof fn temperatures_are_defined<N: Floats>(
    cpu: Vec<Vec<u8>>,
    gpu: Vec<Vec<u8>>,
    metrics: Vec<(String, N::Single)>,
)
    requires
        total::<N>(),
    ensures
        call_requires(get_temp_hid::<N>, (&metrics,)),
        (forall|i: int| 0 <= i < cpu@.len() ==> (#[trigger] cpu@[i])@.len() >= 4) && (forall|i: int|
            0 <= i < gpu@.len() ==> (#[trigger] gpu@[i])@.len() >= 4) ==> call_requires(
            get_temp_smc::<N>,
            (&cpu, &gpu),
        ),
{
    if forall|i: int| 0 <= i < cpu@.len() ==> (#[trigger] cpu@[i])@.len() >= 4 {
        assert forall|i: int| 0 <= i < cpu@.len() implies #[trigger] cpu@[i]@.len() >= 4 by {}
    }
    if forall|i: int| 0 <= i < gpu@.len() ==> (#[trigger] gpu@[i])@.len() >= 4 {
        assert forall|i: int| 0 <= i < gpu@.len() implies #[trigger] gpu@[i]@.len() >= 4 by {}
    }
}

/// The temperatures of the controller's sensors are added up in their order before
/// `get_temp_smc` divides them.
pub proof fn controller_sensors_are_added_in_order<N: Floats>(
    cpu: Vec<Vec<u8>>,
    gpu: Vec<Vec<u8>>,
    r: TempMetrics<N::Single>,
)
    requires
        call_ensures(get_temp_smc::<N>, (&cpu, &gpu), r),
    ensures
        exists|values: Seq<N::Single>| #[trigger]
            share_is::<N>(values, cpu@.len() as usize, r.cpu_temp_avg) && read_in_order::<N>(
                cpu@,
                values,
            ),
        exists|values: Seq<N::Single>| #[trigger]
            share_is::<N>(values, gpu@.len() as usize, r.gpu_temp_avg) && read_in_order::<N>(
                gpu@,
                values,
            ),
{
    let values = words_in_order::<N>(cpu@, r.cpu_temp_avg);
    assert(share_is::<N>(values, cpu@.len() as usize, r.cpu_temp_avg));
    let values = words_in_order::<N>(gpu@, r.gpu_temp_avg);
    assert(share_is::<N>(values, gpu@.len() as usize, r.gpu_temp_avg));
}

/// `values` are the numbers whose binary representations are stored in `data`.
pub open spec fn read_in_order<N: Floats>(data: Seq<Vec<u8>>, values: Seq<N::Single>) -> bool {
    &&& values.len() == data.len()
    &&& forall|i: int, bits: u32|
        0 <= i < data.len() && #[trigger] stored_as(bits, data[i]@) ==> call_ensures(
            N::single_of_bits,
            (bits,),
            values[i],
        )
}

proof fn words_in_order<N: Floats>(data: Seq<Vec<u8>>, r: N::Single) -> (values: Seq<N::Single>)
    requires
        mean_of_words::<N>(data, r),
    ensures
        share_is::<N>(values, data.len() as usize, r),
        read_in_order::<N>(data, values),
{
    let values = choose|values: Seq<N::Single>| #[trigger]
        decoded::<N>(data, values) && share_is::<N>(values, data.len() as usize, r);
    assert forall|i: int, bits: u32|
        0 <= i < data.len() && #[trigger] stored_as(bits, data[i]@) implies call_ensures(
        N::single_of_bits,
        (bits,),
        values[i],
    ) by {
        word_has_digits(data[i]@, bits);
        assert(call_ensures(N::single_of_bits, (word_at(data[i]@) as u32,), values[i]));
    }
    values
}

proof fn values_are_chosen<F>(
    metrics: Seq<(String, F)>,
    cpu: spec_fn((String, F)) -> bool,
    gpu: spec_fn((String, F)) -> bool,
)
    requires
        forall|m: (String, F)| #[trigger] cpu(m) <==> is_cpu_sensor(m.0@),
        forall|m: (String, F)| #[trigger] gpu(m) <==> is_gpu_sensor(m.0@),
    ensures
        cpu_values(metrics) == metrics.filter(cpu).map_values(|m: (String, F)| m.1),
        gpu_values(metrics) == metrics.filter(gpu).map_values(|m: (String, F)| m.1),
    decreases metrics.len(),
{
    let value = |m: (String, F)| m.1;
    if metrics.len() == 0 {
        reveal_with_fuel(Seq::filter, 1);
        assert(cpu_values(metrics) =~= metrics.filter(cpu).map_values(value));
        assert(gpu_values(metrics) =~= metrics.filter(gpu).map_values(value));
    } else {
        let before = metrics.drop_last();
        let m = metrics.last();
        assert(metrics =~= before.push(m));
        values_are_chosen(before, cpu, gpu);
        values_push(before, m);
        before.lemma_filter_push(m, cpu);
        before.lemma_filter_push(m, gpu);
        assert(cpu(m) <==> is_cpu_sensor(m.0@));
        assert(gpu(m) <==> is_gpu_sensor(m.0@));
        assert(metrics.filter(cpu).map_values(value) =~= cpu_values(metrics));
        assert(metrics.filter(gpu).map_values(value) =~= gpu_values(metrics));
    }
}

/// The temperatures of the named sensors are added up in their order before `get_temp_hid`
/// divides them by the number of sensors.
pub proof fn named_sensors_are_added_in_order<N: Floats>(
    metrics: Vec<(String, N::Single)>,
    r: TempMetrics<N::Single>,
)
    requires
        call_ensures(get_temp_hid::<N>, (&metrics,), r),
    ensures
        ({
            let values = metrics@.filter(
                |m: (String, N::Single)|
                    "pACC MTR Temp Sensor"@.is_prefix_of(m.0@)
                        || "eACC MTR Temp Sensor"@.is_prefix_of(m.0@),
            ).map_values(|m: (String, N::Single)| m.1);
            share_is::<N>(values, values.len() as usize, r.cpu_temp_avg)
        }),
        ({
            let values = metrics@.filter(
                |m: (String, N::Single)| "GPU MTR Temp Sensor"@.is_prefix_of(m.0@),
            ).map_values(|m: (String, N::Single)| m.1);
            share_is::<N>(values, values.len() as usize, r.gpu_temp_avg)
        }),
{
    let cpu = |m: (String, N::Single)|
        "pACC MTR Temp Sensor"@.is_prefix_of(m.0@) || "eACC MTR Temp Sensor"@.is_prefix_of(m.0@);
    let gpu = |m: (String, N::Single)| "GPU MTR Temp Sensor"@.is_prefix_of(m.0@);
    values_are_chosen(metrics@, cpu, gpu);
}

} // verus!
