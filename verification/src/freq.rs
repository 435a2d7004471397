//! How the time that a core spends in each state becomes a clock frequency.
use crate::arith::{
    exact, int_total, is_cut, larger, larger_is, larger_of_exact, quotient_of_exact, real_total,
    real_total_of_ints, same_real_total, share, share_is, share_of_exact, sum, sum_is,
    sum_of_exact, total, zero_div, zero_div_is, Floats,
};
use crate::text::equal;
use core::ops::{Add, Div, Mul};
use vstd::prelude::*;

verus! {

/// The label of a state in which nothing runs: `IDLE` and `DOWN` for a processor core,
/// `OFF` for the graphics unit.
pub open spec fn is_idle(label: Seq<char>) -> bool {
    label == "IDLE"@ || label == "DOWN"@ || label == "OFF"@
}

/// The states before `offset` are idle and the one there is not.
pub open spec fn active_from(items: Seq<(String, i64)>, offset: int) -> bool {
    &&& 0 <= offset < items.len()
    &&& !is_idle(items[offset].0@)
    &&& forall|j: int| 0 <= j < offset ==> is_idle(#[trigger] items[j].0@)
}

/// All states are idle.
pub open spec fn never_active(items: Seq<(String, i64)>) -> bool {
    forall|j: int| 0 <= j < items.len() ==> is_idle(#[trigger] items[j].0@)
}

/// There is at most one position from which on a core is active.
pub proof fn active_from_one_position(items: Seq<(String, i64)>, m: int, n: int)
    requires
        active_from(items, m),
        active_from(items, n),
    ensures
        m == n,
{
    if m < n {
        assert(is_idle(items[m].0@));
    } else if n < m {
        assert(is_idle(items[n].0@));
    }
}

/// The position of the first state that is not idle.
pub fn active_offset(items: &Vec<(String, i64)>) -> (r: Option<usize>)
    ensures
        match r {
            Some(offset) => active_from(items@, offset as int),
            None => forall|j: int| 0 <= j < items@.len() ==> is_idle(#[trigger] items@[j].0@),
        },
        r is None <==> never_active(items@),
{
    for i in 0..items.len()
        invariant
            forall|j: int| 0 <= j < i ==> is_idle(#[trigger] items@[j].0@),
    {
        let label = items[i].0.as_str();
        if !(equal(label, "IDLE") || equal(label, "DOWN") || equal(label, "OFF")) {
            return Some(i);
        }
    }
    None
}

/// There is a frequency for each state from the first active one on: the table is not
/// empty, it is shorter than the list of states, and it does not reach past its end when
/// laid beside the active states.
pub open spec fn freq_data_ok(items: Seq<(String, i64)>, freqs: Seq<u32>) -> bool {
    &&& 0 < freqs.len() < items.len()
    &&& exists|offset: int| #[trigger]
        active_from(items, offset) && offset + freqs.len() <= items.len()
}

/// Whether `calc_freq` is defined on this data.
pub fn check_freq_data(items: &Vec<(String, i64)>, freqs: &Vec<u32>) -> (r: bool)
    ensures
        r == freq_data_ok(items@, freqs@),
{
    if freqs.len() == 0 || items.len() <= freqs.len() {
        return false;
    }
    match active_offset(items) {
        Some(offset) => {
            proof {
                assert forall|o: int| #[trigger] active_from(items@, o) implies o == offset by {
                    active_from_one_position(items@, o, offset as int);
                }
            }
            freqs.len() <= items.len() - offset
        },
        None => false,
    }
}

/// The intermediate results of `calc_freq`.
pub struct FreqSteps<D> {
    /// The position of the first active state.
    pub offset: int,
    /// The time spent in each state.
    pub times: Seq<D>,
    /// The frequency of each active state.
    pub clocks: Seq<D>,
    /// The time spent in active states.
    pub usage: D,
    /// The time spent in all states.
    pub total: D,
    /// The mean frequency of the active time.
    pub mean: D,
    /// The part of the time that was active.
    pub ratio: D,
    /// The mean frequency, raised to the lowest one of the table.
    pub floored: D,
    /// `floored`, scaled by `ratio`.
    pub scaled: D,
    /// `scaled` as a part of the highest frequency.
    pub from_max: D,
}

/// `mean` adds up, over the first `n` frequencies, each one weighed by the part of the
/// usage that was spent at it.
pub open spec fn weighted_is<
    D: Copy + Add<Output = D> + Mul<Output = D> + Div<Output = D> + Default + PartialEq,
>(
    times: Seq<D>,
    clocks: Seq<D>,
    usage: D,
    n: int,
    mean: D,
) -> bool
    decreases n,
{
    if n <= 0 {
        call_ensures(D::default, (), mean)
    } else {
        exists|before: D, percent: D, term: D|
            {
                &&& weighted_is(times, clocks, usage, n - 1, before)
                &&& zero_div_is(times[n - 1], usage, percent)
                &&& #[trigger] call_ensures(D::mul, (percent, clocks[n - 1]), term)
                &&& #[trigger] call_ensures(D::add, (before, term), mean)
            }
    }
}

/// `times` are the times of `items`.
pub open spec fn times_are<N: Floats>(items: Seq<(String, i64)>, times: Seq<N::Double>) -> bool {
    &&& times.len() == items.len()
    &&& forall|i: int|
        0 <= i < items.len() ==> call_ensures(N::double_of_i64, (items[i].1,), #[trigger] times[i])
}

/// `r` is what the steps `t` lead to from the residencies `items` and the table `freqs`.
pub open spec fn freq_steps<N: Floats>(
    items: Seq<(String, i64)>,
    freqs: Seq<u32>,
    t: FreqSteps<N::Double>,
    r: (u32, N::Single),
) -> bool {
    &&& active_from(items, t.offset)
    &&& times_are::<N>(items, t.times)
    &&& t.clocks.len() == freqs.len()
    &&& forall|i: int|
        0 <= i < freqs.len() ==> call_ensures(N::double_of_u32, (freqs[i],), #[trigger] t.clocks[i])
    &&& sum_is(t.times.skip(t.offset), t.usage)
    &&& sum_is(t.times, t.total)
    &&& weighted_is(t.times.skip(t.offset), t.clocks, t.usage, freqs.len() as int, t.mean)
    &&& zero_div_is(t.usage, t.total, t.ratio)
    &&& larger_is(t.mean, t.clocks[0], t.floored)
    &&& call_ensures(<N::Double as Mul>::mul, (t.floored, t.ratio), t.scaled)
    &&& call_ensures(<N::Double as Div>::div, (t.scaled, t.clocks.last()), t.from_max)
    &&& call_ensures(N::u32_of_double, (t.mean,), r.0)
    &&& call_ensures(N::single_of_double, (t.from_max,), r.1)
}

/// `r` is the frequency of a core whose residencies are `items`, and the part of its
/// highest frequency that it used.
pub open spec fn freq_is<N: Floats>(
    items: Seq<(String, i64)>,
    freqs: Seq<u32>,
    r: (u32, N::Single),
) -> bool {
    exists|t: FreqSteps<N::Double>| freq_steps::<N>(items, freqs, t, r)
}

/// The mean frequency of the active time of a core, and the part of its highest
/// frequency that the core used.
///
/// `items` holds a label and the time spent in the state so labelled, for each state;
/// `freqs` the frequency of each active state, in ascending order.
pub fn calc_freq<N: Floats>(items: &Vec<(String, i64)>, freqs: &Vec<u32>) -> (r: (u32, N::Single))
    requires
        total::<N>(),
        freq_data_ok(items@, freqs@),
    ensures
        freq_is::<N>(items@, freqs@, r),
{
    let offset: usize = match active_offset(items) {
        Some(offset) => offset,
        None => 0,
    };
    proof {
        let o = choose|o: int| #[trigger]
            active_from(items@, o) && o + freqs@.len() <= items@.len();
        active_from_one_position(items@, o, offset as int);
    }
    let mut times: Vec<N::Double> = Vec::new();
    for i in 0..items.len()
        invariant
            times@.len() == i,
            forall|j: int|
                0 <= j < i ==> call_ensures(N::double_of_i64, (items@[j].1,), #[trigger] times@[j]),
    {
        times.push(N::double_of_i64(items[i].1));
    }
    let mut clocks: Vec<N::Double> = Vec::new();
    for i in 0..freqs.len()
        invariant
            clocks@.len() == i,
            forall|j: int|
                0 <= j < i ==> call_ensures(N::double_of_u32, (freqs@[j],), #[trigger] clocks@[j]),
    {
        clocks.push(N::double_of_u32(freqs[i]));
    }
    let mut active: Vec<N::Double> = Vec::new();
    for i in offset..times.len()
        invariant
            offset <= times@.len(),
            active@ == times@.subrange(offset as int, i as int),
    {
        active.push(times[i]);
    }
    assert(active@ == times@.skip(offset as int));

    let usage = sum(&active);
    let all = sum(&times);
    let mut mean: N::Double = Default::default();
    for i in 0..clocks.len()
        invariant
            total::<N>(),
            clocks@.len() <= active@.len(),
            weighted_is(active@, clocks@, usage, i as int, mean),
    {
        let percent = zero_div(active[i], usage);
        let term = percent * clocks[i];
        let next = mean + term;
        proof {
            let n = i + 1;
            assert(weighted_is(active@, clocks@, usage, n - 1, mean));
            assert(zero_div_is(active@[n - 1], usage, percent));
            assert(call_ensures(<N::Double as Mul>::mul, (percent, clocks@[n - 1]), term));
            assert(call_ensures(<N::Double as Add>::add, (mean, term), next));
        }
        mean = next;
    }
    let ratio = zero_div(usage, all);
    let floored = larger(mean, clocks[0]);
    let scaled = floored * ratio;
    let from_max = scaled / clocks[clocks.len() - 1];
    let r = (N::u32_of_double(mean), N::single_of_double(from_max));
    proof {
        let t = FreqSteps {
            offset: offset as int,
            times: times@,
            clocks: clocks@,
            usage,
            total: all,
            mean,
            ratio,
            floored,
            scaled,
            from_max,
        };
        assert(freq_steps::<N>(items@, freqs@, t, r));
    }
    r
}

/// `r` is the mean frequency and the mean part of the highest frequency over the cores of
/// a cluster, by the given steps: the frequency is raised to `floor`, the lowest one, and
/// turned back into an integer.
pub open spec fn cluster_steps<N: Floats>(
    cores: Seq<(u32, N::Single)>,
    lowest: u32,
    clocks: Seq<N::Single>,
    mean: N::Single,
    floor: N::Single,
    floored: N::Single,
    r: (u32, N::Single),
) -> bool {
    &&& clocks.len() == cores.len()
    &&& forall|i: int|
        0 <= i < cores.len() ==> call_ensures(
            N::single_of_u32,
            (cores[i].0,),
            #[trigger] clocks[i],
        )
    &&& share_is::<N>(clocks, cores.len() as usize, mean)
    &&& call_ensures(N::single_of_u32, (lowest,), floor)
    &&& larger_is(mean, floor, floored)
    &&& call_ensures(N::u32_of_single, (floored,), r.0)
    &&& share_is::<N>(
        cores.map_values(|c: (u32, N::Single)| c.1),
        cores.len() as usize,
        r.1,
    )
}

/// `r` is the frequency of a cluster with the cores `cores`, none below the lowest one of
/// `freqs`, and the part of the highest frequency that the cores used on average.
pub open spec fn cluster_freq_is<N: Floats>(
    cores: Seq<(u32, N::Single)>,
    freqs: Seq<u32>,
    r: (u32, N::Single),
) -> bool {
    exists|clocks: Seq<N::Single>, mean: N::Single, floor: N::Single, floored: N::Single|
        cluster_steps::<N>(cores, freqs[0], clocks, mean, floor, floored, r)
}

/// The frequency of a cluster of cores, and the part of the highest frequency that they
/// used: the means over the cores, the frequency at least the lowest one of `freqs`.
pub fn calc_freq_final<N: Floats>(items: &Vec<(u32, N::Single)>, freqs: &Vec<u32>) -> (r: (
    u32,
    N::Single,
))
    requires
        total::<N>(),
        freqs@.len() > 0,
    ensures
        cluster_freq_is::<N>(items@, freqs@, r),
{
    let mut clocks: Vec<N::Single> = Vec::new();
    let mut parts: Vec<N::Single> = Vec::new();
    for i in 0..items.len()
        invariant
            clocks@.len() == i,
            forall|j: int|
                0 <= j < i ==> call_ensures(N::single_of_u32, (items@[j].0,), #[trigger] clocks@[j]),
            parts@ == items@.take(i as int).map_values(|c: (u32, N::Single)| c.1),
    {
        clocks.push(N::single_of_u32(items[i].0));
        parts.push(items[i].1);
    }
    assert(items@.take(items@.len() as int) == items@);
    let mean = share::<N>(&clocks, items.len());
    let part = share::<N>(&parts, items.len());
    let floor = N::single_of_u32(freqs[0]);
    let floored = larger(mean, floor);
    let r = (N::u32_of_single(floored), part);
    assert(cluster_steps::<N>(items@, freqs@[0], clocks@, mean, floor, floored, r));
    r
}

/// `a` and `b` have states that are idle at the same places.
pub open spec fn idle_alike(a: Seq<(String, i64)>, b: Seq<(String, i64)>) -> bool {
    &&& a.len() == b.len()
    &&& forall|i: int|
        #![trigger a[i]]
        #![trigger b[i]]
        0 <= i < a.len() ==> (is_idle(a[i].0@) <==> is_idle(b[i].0@))
}

/// `a` and `b` have the same times in states that are idle at the same places.
pub open spec fn alike(a: Seq<(String, i64)>, b: Seq<(String, i64)>) -> bool {
    &&& idle_alike(a, b)
    &&& forall|i: int|
        #![trigger a[i]]
        #![trigger b[i]]
        0 <= i < a.len() ==> a[i].1 == b[i].1
}

proof fn active_from_alike(a: Seq<(String, i64)>, b: Seq<(String, i64)>, offset: int)
    requires
        idle_alike(a, b),
        active_from(a, offset),
    ensures
        active_from(b, offset),
{
    assert forall|j: int| 0 <= j < offset implies is_idle(#[trigger] b[j].0@) by {
        assert(is_idle(a[j].0@));
    }
}

proof fn freq_data_alike(a: Seq<(String, i64)>, b: Seq<(String, i64)>, freqs: Seq<u32>)
    requires
        idle_alike(a, b),
        freq_data_ok(a, freqs),
    ensures
        freq_data_ok(b, freqs),
{
    let offset = choose|offset: int| #[trigger]
        active_from(a, offset) && offset + freqs.len() <= a.len();
    active_from_alike(a, b, offset);
}

proof fn freq_steps_alike<N: Floats>(
    a: Seq<(String, i64)>,
    b: Seq<(String, i64)>,
    freqs: Seq<u32>,
    r: (u32, N::Single),
)
    requires
        alike(a, b),
        freq_is::<N>(a, freqs, r),
    ensures
        freq_is::<N>(b, freqs, r),
{
    let t = choose|t: FreqSteps<N::Double>| freq_steps::<N>(a, freqs, t, r);
    active_from_alike(a, b, t.offset);
    assert forall|i: int| 0 <= i < b.len() implies call_ensures(
        N::double_of_i64,
        (b[i].1,),
        #[trigger] t.times[i],
    ) by {
        assert(a[i].1 == b[i].1);
    }
    assert(freq_steps::<N>(b, freqs, t, r));
}

/// Of the labels only which of them are idle matters: renaming states without making an
/// idle one active, or an active one idle, changes neither whether the data fits nor the
/// frequency.
pub proof fn names_of_states_are_immaterial<N: Floats>(
    a: Seq<(String, i64)>,
    b: Seq<(String, i64)>,
    freqs: Seq<u32>,
    r: (u32, N::Single),
)
    requires
        alike(a, b),
    ensures
        freq_data_ok(a, freqs) <==> freq_data_ok(b, freqs),
        freq_is::<N>(a, freqs, r) <==> freq_is::<N>(b, freqs, r),
{
    if freq_data_ok(a, freqs) {
        freq_data_alike(a, b, freqs);
    }
    if freq_data_ok(b, freqs) {
        freq_data_alike(b, a, freqs);
    }
    if freq_is::<N>(a, freqs, r) {
        freq_steps_alike::<N>(a, b, freqs, r);
    }
    if freq_is::<N>(b, freqs, r) {
        freq_steps_alike::<N>(b, a, freqs, r);
    }
}

/// `up` changes the scale of numbers: on those that `fits` admits, sums change with it and
/// quotients do not. Multiplying by a power of two does this in binary floating point, for
/// numbers of a size at which nothing overflows or loses digits.
pub open spec fn rescales<D: Add<Output = D> + Div<Output = D> + Default + PartialEq>(
    up: spec_fn(D) -> D,
    fits: spec_fn(D) -> bool,
) -> bool {
    &&& forall|zero: D| #[trigger]
        call_ensures(D::default, (), zero) ==> call_ensures(D::default, (), up(zero))
    &&& forall|x: D, y: D, r: D|
        fits(x) && fits(y) && fits(r) && #[trigger] call_ensures(D::add, (x, y), r)
            ==> call_ensures(D::add, (up(x), up(y)), up(r))
    &&& forall|x: D, y: D, q: D|
        fits(x) && fits(y) && #[trigger] zero_div_is(x, y, q) ==> zero_div_is(up(x), up(y), q)
}

/// The times of `b` are those of `a` on the scale of `up`, and `fits` admits the times of
/// `a` and the sum of any of them that follow each other.
pub open spec fn rescaled<N: Floats>(
    a: Seq<(String, i64)>,
    b: Seq<(String, i64)>,
    up: spec_fn(N::Double) -> N::Double,
    fits: spec_fn(N::Double) -> bool,
) -> bool {
    &&& forall|i: int, x: N::Double|
        0 <= i < a.len() && #[trigger] call_ensures(N::double_of_i64, (a[i].1,), x) ==> fits(x)
            && call_ensures(N::double_of_i64, (b[i].1,), up(x))
    &&& forall|times: Seq<N::Double>, m: int, n: int, sum: N::Double|
        times_are::<N>(a, times) && 0 <= m <= n <= a.len() && #[trigger] sum_is(
            times.subrange(m, n),
            sum,
        ) ==> fits(sum)
}

proof fn sum_rescaled<D: Add<Output = D> + Div<Output = D> + Default + PartialEq>(
    s: Seq<D>,
    r: D,
    up: spec_fn(D) -> D,
    fits: spec_fn(D) -> bool,
)
    requires
        rescales(up, fits),
        sum_is(s, r),
        forall|i: int| 0 <= i < s.len() ==> fits(#[trigger] s[i]),
        forall|n: int, sum: D|
            0 <= n <= s.len() && #[trigger] sum_is(s.subrange(0, n), sum) ==> fits(sum),
    ensures
        sum_is(s.map_values(up), up(r)),
    decreases s.len(),
{
    let mapped = s.map_values(up);
    if s.len() > 0 {
        let n = s.len() as int;
        let before = s.drop_last();
        let partial = choose|partial: D|
            {
                &&& sum_is(before, partial)
                &&& #[trigger] call_ensures(D::add, (partial, s.last()), r)
            };
        assert(before =~= s.subrange(0, n - 1));
        assert(s =~= s.subrange(0, n));
        assert(fits(partial) && fits(r) && fits(s[n - 1]));
        assert forall|k: int, sum: D|
            0 <= k <= before.len() && #[trigger] sum_is(before.subrange(0, k), sum) implies fits(
            sum,
        ) by {
            assert(before.subrange(0, k) =~= s.subrange(0, k));
        }
        sum_rescaled(before, partial, up, fits);
        assert(mapped.drop_last() =~= before.map_values(up));
        assert(call_ensures(D::add, (up(partial), mapped.last()), up(r)));
    }
}

proof fn weighted_rescaled<
    D: Copy + Add<Output = D> + Mul<Output = D> + Div<Output = D> + Default + PartialEq,
>(
    times: Seq<D>,
    clocks: Seq<D>,
    usage: D,
    n: int,
    mean: D,
    up: spec_fn(D) -> D,
    fits: spec_fn(D) -> bool,
)
    requires
        rescales(up, fits),
        n <= times.len(),
        weighted_is(times, clocks, usage, n, mean),
        forall|i: int| 0 <= i < times.len() ==> fits(#[trigger] times[i]),
        fits(usage),
    ensures
        weighted_is(times.map_values(up), clocks, up(usage), n, mean),
    decreases n,
{
    if n > 0 {
        let (before, percent, term) = choose|before: D, percent: D, term: D|
            {
                &&& weighted_is(times, clocks, usage, n - 1, before)
                &&& zero_div_is(times[n - 1], usage, percent)
                &&& #[trigger] call_ensures(D::mul, (percent, clocks[n - 1]), term)
                &&& #[trigger] call_ensures(D::add, (before, term), mean)
            };
        weighted_rescaled(times, clocks, usage, n - 1, before, up, fits);
        assert(zero_div_is(up(times[n - 1]), up(usage), percent));
        assert(call_ensures(D::mul, (percent, clocks[n - 1]), term));
        assert(call_ensures(D::add, (before, term), mean));
    }
}

/// Only the proportions of the times matter, and which states are idle: what `calc_freq`
/// may give for some residencies it may also give for the same on another scale, whatever
/// the states are called, where the arithmetic follows the change of scale.
pub proof fn only_proportions_matter<N: Floats>(
    a: Seq<(String, i64)>,
    b: Seq<(String, i64)>,
    freqs: Seq<u32>,
    up: spec_fn(N::Double) -> N::Double,
    fits: spec_fn(N::Double) -> bool,
    r: (u32, N::Single),
)
    requires
        freq_data_ok(a, freqs),
        idle_alike(a, b),
        rescales(up, fits),
        rescaled::<N>(a, b, up, fits),
        freq_is::<N>(a, freqs, r),
    ensures
        freq_data_ok(b, freqs),
        freq_is::<N>(b, freqs, r),
{
    freq_data_alike(a, b, freqs);
    let t = choose|t: FreqSteps<N::Double>| freq_steps::<N>(a, freqs, t, r);
    active_from_alike(a, b, t.offset);
    let o = choose|o: int| #[trigger] active_from(a, o) && o + freqs.len() <= a.len();
    active_from_one_position(a, o, t.offset);
    let len = a.len() as int;
    let active = t.times.skip(t.offset);
    assert(times_are::<N>(a, t.times));
    assert forall|i: int| 0 <= i < len implies fits(#[trigger] t.times[i]) && call_ensures(
        N::double_of_i64,
        (b[i].1,),
        up(t.times[i]),
    ) by {
        assert(call_ensures(N::double_of_i64, (a[i].1,), t.times[i]));
    }
    assert forall|n: int, sum: N::Double|
        0 <= n <= len && #[trigger] sum_is(t.times.subrange(0, n), sum) implies fits(sum) by {}
    assert forall|n: int, sum: N::Double|
        0 <= n <= active.len() && #[trigger] sum_is(active.subrange(0, n), sum) implies fits(
        sum,
    ) by {
        assert(active.subrange(0, n) =~= t.times.subrange(t.offset, t.offset + n));
    }
    assert(active =~= t.times.subrange(t.offset, len));
    assert(t.times =~= t.times.subrange(0, len));
    assert(fits(t.usage) && fits(t.total));
    sum_rescaled(t.times, t.total, up, fits);
    sum_rescaled(active, t.usage, up, fits);
    weighted_rescaled(active, t.clocks, t.usage, freqs.len() as int, t.mean, up, fits);
    let times = t.times.map_values(up);
    assert(times.skip(t.offset) =~= active.map_values(up));
    let scaled = FreqSteps { times, usage: up(t.usage), total: up(t.total), ..t };
    assert(freq_steps::<N>(b, freqs, scaled, r));
}

/// The states before `offset` are named after doing nothing, the one there is not.
pub open spec fn rests_until(items: Seq<(String, i64)>, offset: int) -> bool {
    &&& 0 <= offset < items.len()
    &&& forall|j: int|
        0 <= j < offset ==> {
            let name = (#[trigger] items[j]).0@;
            name == "IDLE"@ || name == "DOWN"@ || name == "OFF"@
        }
    &&& items[offset].0@ != "IDLE"@
    &&& items[offset].0@ != "DOWN"@
    &&& items[offset].0@ != "OFF"@
}

proof fn rest_is_idle(items: Seq<(String, i64)>, offset: int)
    ensures
        rests_until(items, offset) <==> active_from(items, offset),
{
    if rests_until(items, offset) {
        assert forall|j: int| 0 <= j < offset implies is_idle(#[trigger] items[j].0@) by {
            let name = items[j].0@;
        }
    }
}

/// A core is active from the first state on that is not named `IDLE`, `DOWN` or `OFF`; it
/// never is where all are so named.
pub proof fn activity_begins_behind_rest(items: Vec<(String, i64)>, r: Option<usize>)
    requires
        call_ensures(active_offset, (&items,), r),
    ensures
        match r {
            Some(offset) => rests_until(items@, offset as int),
            None => forall|offset: int| !#[trigger] rests_until(items@, offset),
        },
{
    match r {
        Some(offset) => {
            rest_is_idle(items@, offset as int);
        },
        None => {
            assert forall|offset: int| !#[trigger] rests_until(items@, offset) by {
                rest_is_idle(items@, offset);
                if active_from(items@, offset) {
                    assert(is_idle(items@[offset].0@));
                }
            }
        },
    }
}

/// There are more states than frequencies, at least one frequency, and a state for each of
/// them from the first one on that is not at rest.
pub open spec fn table_fits(items: Seq<(String, i64)>, freqs: Seq<u32>) -> bool {
    &&& freqs.len() > 0
    &&& items.len() > freqs.len()
    &&& exists|offset: int| #[trigger]
        rests_until(items, offset) && offset + freqs.len() <= items.len()
}

pub(crate) proof fn fitting_tables(items: Seq<(String, i64)>, freqs: Seq<u32>)
    ensures
        table_fits(items, freqs) <==> freq_data_ok(items, freqs),
{
    if freq_data_ok(items, freqs) {
        let offset = choose|offset: int| #[trigger]
            active_from(items, offset) && offset + freqs.len() <= items.len();
        rest_is_idle(items, offset);
    }
    if table_fits(items, freqs) {
        let offset = choose|offset: int| #[trigger]
            rests_until(items, offset) && offset + freqs.len() <= items.len();
        rest_is_idle(items, offset);
    }
}

/// Residencies fit a table of frequencies exactly where there are more states than
/// frequencies, at least one frequency, and a state for each of them from the first one on
/// that is not at rest.
pub proof fn residencies_fit_a_table(items: Vec<(String, i64)>, freqs: Vec<u32>, r: bool)
    requires
        call_ensures(check_freq_data, (&items, &freqs), r),
    ensures
        r <==> table_fits(items@, freqs@),
{
    fitting_tables(items@, freqs@);
}

/// The time that a core spent in each of some states, in all.
pub open spec fn time_in(items: Seq<(String, i64)>) -> int {
    int_total(items, |item: (String, i64)| item.1 as int)
}

/// The time spent at each of the first `n` frequencies, times that frequency, in all. The
/// states of the frequencies begin at `offset`.
pub open spec fn work(items: Seq<(String, i64)>, offset: int, freqs: Seq<u32>, n: int) -> int
    decreases n,
{
    if n <= 0 {
        0
    } else {
        work(items, offset, freqs, n - 1) + items[offset + n - 1].1 * freqs[n - 1]
    }
}

/// `freq` and `part` are what exact arithmetic gives for a core whose states from `offset`
/// on are active: its work spread over the active time, without the fraction; and the
/// part of all time at the highest frequency that would take in the active time, were it
/// spent at that mean but not below the lowest frequency. A core without activity has zero
/// of both. Of the part of a highest frequency that is zero nothing is said.
pub open spec fn core_law(
    items: Seq<(String, i64)>,
    offset: int,
    freqs: Seq<u32>,
    freq: u32,
    part: real,
) -> bool {
    let active = time_in(items.skip(offset)) as real;
    let all = time_in(items) as real;
    let lowest = freqs[0] as real;
    let highest = freqs[freqs.len() - 1] as real;
    exists|mean: real|
        {
            &&& active != 0 as real ==> mean * active == work(
                items,
                offset,
                freqs,
                freqs.len() as int,
            ) as real
            &&& active == 0 as real ==> mean == 0 as real
            &&& #[trigger] is_cut(mean, u32::MAX as int, freq as int)
            &&& highest != 0 as real && all != 0 as real ==> part * highest * all == if mean
                < lowest {
                lowest * active
            } else {
                mean * active
            }
            &&& highest != 0 as real && all == 0 as real ==> part == 0 as real
        }
}

proof fn time_of_exact<N: Floats>(
    items: Seq<(String, i64)>,
    times: Seq<N::Double>,
    usage: N::Double,
    single: spec_fn(N::Single) -> real,
    double: spec_fn(N::Double) -> real,
)
    requires
        exact::<N>(single, double),
        times_are::<N>(items, times),
        sum_is(times, usage),
    ensures
        double(usage) == time_in(items) as real,
{
    sum_of_exact(times, usage, double);
    let g = |item: (String, i64)| item.1 as real;
    assert forall|i: int| 0 <= i < times.len() implies double(#[trigger] times[i]) == g(
        items[i],
    ) by {
        assert(call_ensures(N::double_of_i64, (items[i].1,), times[i]));
    }
    same_real_total(times, double, items, g);
    real_total_of_ints(items, |item: (String, i64)| item.1 as int, g);
}

proof fn weighted_of_exact<N: Floats>(
    items: Seq<(String, i64)>,
    offset: int,
    freqs: Seq<u32>,
    times: Seq<N::Double>,
    clocks: Seq<N::Double>,
    usage: N::Double,
    n: int,
    mean: N::Double,
    single: spec_fn(N::Single) -> real,
    double: spec_fn(N::Double) -> real,
)
    requires
        exact::<N>(single, double),
        0 <= offset,
        n <= freqs.len(),
        offset + freqs.len() <= items.len(),
        times.len() == items.len() - offset,
        clocks.len() == freqs.len(),
        forall|i: int|
            0 <= i < times.len() ==> double(#[trigger] times[i]) == items[offset + i].1 as real,
        forall|i: int| 0 <= i < freqs.len() ==> double(#[trigger] clocks[i]) == freqs[i] as real,
        weighted_is(times, clocks, usage, n, mean),
    ensures
        double(usage) != 0 as real ==> double(mean) * double(usage) == work(
            items,
            offset,
            freqs,
            n,
        ) as real,
        double(usage) == 0 as real ==> double(mean) == 0 as real,
    decreases n,
{
    let u = double(usage);
    if n > 0 {
        let (before, percent, term) = choose|before: N::Double, percent: N::Double, term: N::Double|
            {
                &&& weighted_is(times, clocks, usage, n - 1, before)
                &&& zero_div_is(times[n - 1], usage, percent)
                &&& #[trigger] call_ensures(<N::Double as Mul>::mul, (percent, clocks[n - 1]), term)
                &&& #[trigger] call_ensures(<N::Double as Add>::add, (before, term), mean)
            };
        weighted_of_exact::<N>(
            items,
            offset,
            freqs,
            times,
            clocks,
            usage,
            n - 1,
            before,
            single,
            double,
        );
        quotient_of_exact(times[n - 1], usage, percent, double);
        let b = double(before);
        let p = double(percent);
        let c = double(clocks[n - 1]);
        let x = double(times[n - 1]);
        assert(double(mean) == b + p * c);
        let time = items[offset + n - 1].1 as int;
        let freq = freqs[n - 1] as int;
        assert(x == time as real && c == freq as real);
        if u != 0 as real {
            assert((b + p * c) * u == b * u + (p * u) * c) by (nonlinear_arith);
            assert(x * c == (time * freq) as real) by (nonlinear_arith)
                requires
                    x == time as real,
                    c == freq as real,
            ;
            let w = work(items, offset, freqs, n - 1);
            assert(work(items, offset, freqs, n) == w + time * freq);
        } else {
            assert(p * c == 0 as real) by (nonlinear_arith)
                requires
                    p == 0 as real,
            ;
        }
    } else if u != 0 as real {
        assert(double(mean) * u == 0 as real) by (nonlinear_arith)
            requires
                double(mean) == 0 as real,
        ;
    }
}

/// What a core did follows from the steps of `calc_freq` where arithmetic is exact.
pub(crate) proof fn core_of_exact<N: Floats>(
    items: Seq<(String, i64)>,
    offset: int,
    freqs: Seq<u32>,
    r: (u32, N::Single),
    single: spec_fn(N::Single) -> real,
    double: spec_fn(N::Double) -> real,
)
    requires
        exact::<N>(single, double),
        freq_is::<N>(items, freqs, r),
        rests_until(items, offset),
        offset + freqs.len() <= items.len(),
        freqs.len() > 0,
    ensures
        core_law(items, offset, freqs, r.0, single(r.1)),
{
    let t = choose|t: FreqSteps<N::Double>| freq_steps::<N>(items, freqs, t, r);
    rest_is_idle(items, offset);
    active_from_one_position(items, offset, t.offset);
    let running = items.skip(offset);
    let times = t.times.skip(offset);
    assert(times_are::<N>(running, times)) by {
        assert forall|i: int| 0 <= i < running.len() implies call_ensures(
            N::double_of_i64,
            (running[i].1,),
            #[trigger] times[i],
        ) by {
            assert(times[i] == t.times[offset + i]);
        }
    }
    time_of_exact::<N>(running, times, t.usage, single, double);
    time_of_exact::<N>(items, t.times, t.total, single, double);
    assert forall|i: int| 0 <= i < times.len() implies double(#[trigger] times[i]) == items[offset
        + i].1 as real by {
        assert(call_ensures(N::double_of_i64, (running[i].1,), times[i]));
    }
    assert forall|i: int| 0 <= i < freqs.len() implies double(#[trigger] t.clocks[i])
        == freqs[i] as real by {}
    weighted_of_exact::<N>(
        items,
        offset,
        freqs,
        times,
        t.clocks,
        t.usage,
        freqs.len() as int,
        t.mean,
        single,
        double,
    );
    quotient_of_exact(t.usage, t.total, t.ratio, double);
    larger_of_exact(t.mean, t.clocks[0], t.floored, double);
    let active = double(t.usage);
    let all = double(t.total);
    let ratio = double(t.ratio);
    let floored = double(t.floored);
    let mean = double(t.mean);
    let part = double(t.from_max);
    let highest = freqs[freqs.len() - 1] as real;
    assert(double(t.clocks[freqs.len() - 1]) == highest);
    if highest != 0 as real {
        assert(part == (floored * ratio) / highest);
        assert(part * highest == floored * ratio) by (nonlinear_arith)
            requires
                part == (floored * ratio) / highest,
                highest != 0 as real,
        ;
        if all != 0 as real {
            assert(part * highest * all == floored * active) by (nonlinear_arith)
                requires
                    part * highest == floored * ratio,
                    ratio * all == active,
            ;
        } else {
            assert(part == 0 as real) by (nonlinear_arith)
                requires
                    part == (floored * ratio) / highest,
                    ratio == 0 as real,
                    highest != 0 as real,
            ;
        }
    }
    assert(is_cut(mean, u32::MAX as int, r.0 as int));
}

/// Where arithmetic is exact, `calc_freq` says of a core how its work compares with its
/// time: spread over the active time it is the frequency, and the part of the highest
/// frequency, taken times that frequency and all time, is the active time at the mean
/// frequency, or at the lowest one where the mean is below it.
pub proof fn frequency_spreads_the_work<N: Floats>(
    items: Vec<(String, i64)>,
    offset: int,
    freqs: Vec<u32>,
    single: spec_fn(N::Single) -> real,
    double: spec_fn(N::Double) -> real,
    r: (u32, N::Single),
)
    requires
        exact::<N>(single, double),
        rests_until(items@, offset),
        offset + freqs@.len() <= items@.len(),
        freqs@.len() > 0,
        call_ensures(calc_freq::<N>, (&items, &freqs), r),
    ensures
        core_law(items@, offset, freqs@, r.0, single(r.1)),
{
    core_of_exact::<N>(items@, offset, freqs@, r, single, double);
}

/// Where only one item counts, it is the total.
proof fn total_of_one(items: Seq<(String, i64)>, k: int)
    requires
        0 <= k < items.len(),
        forall|j: int| 0 <= j < items.len() && j != k ==> (#[trigger] items[j]).1 == 0,
    ensures
        time_in(items) == items[k].1,
    decreases items.len(),
{
    let f = |item: (String, i64)| item.1 as int;
    let before = items.drop_last();
    if k == items.len() - 1 {
        total_of_none(before);
    } else {
        assert(items[items.len() - 1].1 == 0);
        assert forall|j: int| 0 <= j < before.len() && j != k implies (#[trigger] before[j]).1
            == 0 by {
            assert(before[j] == items[j]);
        }
        total_of_one(before, k);
    }
    assert(time_in(items) == int_total(before, f) + f(items.last()));
}

proof fn total_of_none(items: Seq<(String, i64)>)
    requires
        forall|j: int| 0 <= j < items.len() ==> (#[trigger] items[j]).1 == 0,
    ensures
        time_in(items) == 0,
    decreases items.len(),
{
    let f = |item: (String, i64)| item.1 as int;
    if items.len() > 0 {
        let before = items.drop_last();
        assert forall|j: int| 0 <= j < before.len() implies (#[trigger] before[j]).1 == 0 by {
            assert(before[j] == items[j]);
        }
        total_of_none(before);
        assert(items[items.len() - 1].1 == 0);
        assert(time_in(items) == int_total(before, f) + f(items.last()));
    }
}

proof fn work_of_one(items: Seq<(String, i64)>, offset: int, freqs: Seq<u32>, k: int, n: int)
    requires
        0 <= offset,
        0 <= n <= freqs.len(),
        offset + freqs.len() <= items.len(),
        0 <= k < freqs.len(),
        forall|j: int| 0 <= j < items.len() && j != offset + k ==> (#[trigger] items[j]).1 == 0,
    ensures
        work(items, offset, freqs, n) == if k < n {
            items[offset + k].1 * freqs[k]
        } else {
            0
        },
    decreases n,
{
    if n > 0 {
        work_of_one(items, offset, freqs, k, n - 1);
        if n - 1 != k {
            assert(items[offset + n - 1].1 == 0);
            let f = freqs[n - 1] as int;
            assert(0 * f == 0) by (nonlinear_arith);
        }
    }
}

/// Where arithmetic is exact, a core that is always in the state of one frequency runs at
/// that frequency, and uses the part of the highest one that it is: all of it at the
/// highest. The states are as many as there are, and the table as long as it is.
pub proof fn steady_core_has_the_frequency_of_its_state<N: Floats>(
    items: Vec<(String, i64)>,
    offset: int,
    k: int,
    freqs: Vec<u32>,
    single: spec_fn(N::Single) -> real,
    double: spec_fn(N::Double) -> real,
    r: (u32, N::Single),
)
    requires
        exact::<N>(single, double),
        rests_until(items@, offset),
        offset + freqs@.len() <= items@.len(),
        0 <= k < freqs@.len(),
        freqs@[0] <= freqs@[k],
        freqs@[freqs@.len() - 1] > 0,
        items@[offset + k].1 > 0,
        forall|j: int| 0 <= j < items@.len() && j != offset + k ==> (#[trigger] items@[j]).1 == 0,
        call_ensures(calc_freq::<N>, (&items, &freqs), r),
    ensures
        r.0 == freqs@[k],
        single(r.1) * (freqs@[freqs@.len() - 1] as real) == freqs@[k] as real,
        k == freqs@.len() - 1 ==> single(r.1) == 1 as real,
{
    frequency_spreads_the_work::<N>(items, offset, freqs, single, double, r);
    let n = freqs@.len() as int;
    let running = items@.skip(offset);
    assert forall|j: int| 0 <= j < running.len() && j != k implies (#[trigger] running[j]).1 == 0 by {
        assert(running[j] == items@[offset + j]);
    }
    total_of_one(running, k);
    total_of_one(items@, offset + k);
    work_of_one(items@, offset, freqs@, k, n);
    let time = items@[offset + k].1 as int;
    let freq = freqs@[k] as int;
    let lowest = freqs@[0] as real;
    let highest = freqs@[n - 1] as real;
    let part = single(r.1);
    let t = time as real;
    let f = freq as real;
    assert(time_in(running) == time && time_in(items@) == time);
    let mean = choose|mean: real|
        {
            &&& mean * t == work(items@, offset, freqs@, n) as real
            &&& #[trigger] is_cut(mean, u32::MAX as int, r.0 as int)
            &&& part * highest * t == if mean < lowest {
                lowest * t
            } else {
                mean * t
            }
        };
    assert(mean == f) by (nonlinear_arith)
        requires
            mean * t == (time * freq) as real,
            t == time as real,
            f == freq as real,
            time > 0,
    ;
    assert(r.0 == freq);
    assert(part * highest == f) by (nonlinear_arith)
        requires
            part * highest * t == f * t,
            t > 0 as real,
    ;
    if k == n - 1 {
        assert(part == 1 as real) by (nonlinear_arith)
            requires
                part * highest == highest,
                highest > 0 as real,
        ;
    }
}

/// `freq` and `part` are what exact arithmetic gives for a cluster of cores, each with its
/// frequency and its part: every core counts the same. As many cores at `freq` as there
/// are would do what these do, up to a fraction, but for a cluster below its lowest
/// frequency, which is taken to run at it. A cluster without cores runs at its lowest
/// frequency and uses no part.
pub open spec fn cluster_law(
    cores: Seq<(u32, real)>,
    lowest: u32,
    freq: u32,
    part: real,
) -> bool {
    let n = cores.len() as int;
    let all = int_total(cores, |c: (u32, real)| c.0 as int);
    &&& n > 0 && all >= lowest * n ==> freq * n <= all < (freq + 1) * n
    &&& n > 0 && all < lowest * n ==> freq == lowest
    &&& n > 0 ==> part * (n as real) == real_total(cores, |c: (u32, real)| c.1)
    &&& n == 0 ==> freq == lowest && part == 0 as real
}

pub(crate) proof fn cluster_of_exact<N: Floats>(
    cores: Seq<(u32, N::Single)>,
    freqs: Seq<u32>,
    r: (u32, N::Single),
    single: spec_fn(N::Single) -> real,
    double: spec_fn(N::Double) -> real,
)
    requires
        exact::<N>(single, double),
        cores.len() <= usize::MAX,
        cluster_freq_is::<N>(cores, freqs, r),
    ensures
        cluster_law(
            cores.map_values(|c: (u32, N::Single)| (c.0, single(c.1))),
            freqs[0],
            r.0,
            single(r.1),
        ),
{
    let exact_cores = cores.map_values(|c: (u32, N::Single)| (c.0, single(c.1)));
    let lowest = freqs[0];
    let (clocks, mean, floor, floored) = choose|
        clocks: Seq<N::Single>,
        mean: N::Single,
        floor: N::Single,
        floored: N::Single,
    | cluster_steps::<N>(cores, lowest, clocks, mean, floor, floored, r);
    let count = cores.len() as usize;
    let n = cores.len() as int;
    let parts = cores.map_values(|c: (u32, N::Single)| c.1);
    share_of_exact::<N>(clocks, count, mean, single, double);
    share_of_exact::<N>(parts, count, r.1, single, double);
    larger_of_exact(mean, floor, floored, single);
    let clock = |c: (u32, real)| c.0 as int;
    let real_clock = |c: (u32, real)| c.0 as real;
    let all = int_total(exact_cores, clock);
    assert forall|i: int| 0 <= i < clocks.len() implies single(#[trigger] clocks[i]) == real_clock(
        exact_cores[i],
    ) by {
        assert(call_ensures(N::single_of_u32, (cores[i].0,), clocks[i]));
    }
    same_real_total(clocks, single, exact_cores, real_clock);
    real_total_of_ints(exact_cores, clock, real_clock);
    same_real_total(parts, single, exact_cores, |c: (u32, real)| c.1);
    let m = single(mean);
    let top = single(floored);
    if n > 0 {
        clocks_below(exact_cores);
        let size = n as real;
        let low = lowest as int;
        assert(m * size == all as real);
        if all >= low * n {
            assert(m >= lowest as real) by (nonlinear_arith)
                requires
                    m * size == all as real,
                    all >= low * n,
                    size == n as real,
                    low == lowest as int,
                    n > 0,
            ;
            assert(top == m);
            assert(m < (u32::MAX as int + 1) as real) by (nonlinear_arith)
                requires
                    m * size == all as real,
                    all <= u32::MAX as int * n,
                    size == n as real,
                    n > 0,
            ;
            let freq = r.0 as int;
            assert(is_cut(m, u32::MAX as int, freq));
            assert(freq * n <= all && all < (freq + 1) * n) by (nonlinear_arith)
                requires
                    m * size == all as real,
                    size == n as real,
                    n > 0,
                    freq as real <= m,
                    m < (freq + 1) as real,
            ;
        } else {
            assert(m < lowest as real) by (nonlinear_arith)
                requires
                    m * size == all as real,
                    all < low * n,
                    size == n as real,
                    low == lowest as int,
                    n > 0,
            ;
            assert(top == lowest as real);
            assert(is_cut(top, u32::MAX as int, r.0 as int));
        }
    } else {
        assert(top == lowest as real);
        assert(is_cut(top, u32::MAX as int, r.0 as int));
    }
}

proof fn clocks_below(cores: Seq<(u32, real)>)
    ensures
        int_total(cores, |c: (u32, real)| c.0 as int) <= u32::MAX as int * cores.len(),
    decreases cores.len(),
{
    if cores.len() > 0 {
        clocks_below(cores.drop_last());
    }
}

/// Where arithmetic is exact, `calc_freq_final` lets every core of a cluster count the
/// same, also one that is at rest.
pub proof fn cores_of_a_cluster_count_alike<N: Floats>(
    items: Vec<(u32, N::Single)>,
    freqs: Vec<u32>,
    single: spec_fn(N::Single) -> real,
    double: spec_fn(N::Double) -> real,
    r: (u32, N::Single),
)
    requires
        exact::<N>(single, double),
        freqs@.len() > 0,
        call_ensures(calc_freq_final::<N>, (&items, &freqs), r),
    ensures
        cluster_law(
            items@.map_values(|c: (u32, N::Single)| (c.0, single(c.1))),
            freqs@[0],
            r.0,
            single(r.1),
        ),
{
    assert(items.len() == items@.len());
    cluster_of_exact::<N>(items@, freqs@, r, single, double);
}

/// The frequency of a core is defined where its residencies fit its table, and that of a
/// cluster where its table has a frequency, whatever its cores are.
pub proof fn frequencies_are_defined<N: Floats>(
    items: Vec<(String, i64)>,
    cores: Vec<(u32, N::Single)>,
    freqs: Vec<u32>,
)
    requires
        total::<N>(),
    ensures
        table_fits(items@, freqs@) ==> call_requires(calc_freq::<N>, (&items, &freqs)),
        freqs@.len() > 0 ==> call_requires(calc_freq_final::<N>, (&cores, &freqs)),
        call_requires(check_freq_data, (&items, &freqs)),
        call_requires(active_offset, (&items,)),
{
    fitting_tables(items@, freqs@);
}

/// The part of the highest frequency that `calc_freq` gives is a quotient by that
/// frequency, also where it is zero.
pub proof fn parts_are_quotients_by_the_highest<N: Floats>(
    items: Vec<(String, i64)>,
    freqs: Vec<u32>,
    r: (u32, N::Single),
)
    requires
        freqs@.len() > 0,
        call_ensures(calc_freq::<N>, (&items, &freqs), r),
    ensures
        exists|scaled: N::Double, highest: N::Double, part: N::Double|
            {
                &&& #[trigger] call_ensures(
                    <N::Double as Div>::div,
                    (scaled, highest),
                    part,
                )
                &&& call_ensures(N::double_of_u32, (freqs@[freqs@.len() - 1],), highest)
                &&& call_ensures(N::single_of_double, (part,), r.1)
            },
{
    let t = choose|t: FreqSteps<N::Double>| freq_steps::<N>(items@, freqs@, t, r);
    let highest = t.clocks[freqs@.len() - 1];
    assert(call_ensures(<N::Double as Div>::div, (t.scaled, highest), t.from_max));
    assert(call_ensures(N::double_of_u32, (freqs@[freqs@.len() - 1],), highest));
}

/// The parts of the cores are added up in their order before `calc_freq_final` divides them
/// by the number of cores.
pub proof fn parts_of_cores_are_added_in_order<N: Floats>(
    items: Vec<(u32, N::Single)>,
    freqs: Vec<u32>,
    r: (u32, N::Single),
)
    requires
        call_ensures(calc_freq_final::<N>, (&items, &freqs), r),
    ensures
        share_is::<N>(
            Seq::new(items@.len(), |i: int| items@[i].1),
            items@.len() as usize,
            r.1,
        ),
{
    assert(items@.map_values(|c: (u32, N::Single)| c.1) =~= Seq::new(
        items@.len(),
        |i: int| items@[i].1,
    ));
}

/// `clocks` are the frequencies of `cores`, one by one.
pub open spec fn clocks_of<N: Floats>(
    cores: Seq<(u32, N::Single)>,
    clocks: Seq<N::Single>,
) -> bool {
    &&& clocks.len() == cores.len()
    &&& forall|i: int|
        0 <= i < cores.len() ==> call_ensures(
            N::single_of_u32,
            (cores[i].0,),
            #[trigger] clocks[i],
        )
}

/// The frequencies of the cores are added up in their order before `calc_freq_final` divides
/// them, once, by the number of cores; only the larger one of the mean and of the lowest
/// frequency loses its fraction.
pub proof fn clocks_of_cores_are_divided_once<N: Floats>(
    items: Vec<(u32, N::Single)>,
    freqs: Vec<u32>,
    r: (u32, N::Single),
)
    requires
        call_ensures(calc_freq_final::<N>, (&items, &freqs), r),
    ensures
        exists|clocks: Seq<N::Single>, mean: N::Single, lowest: N::Single, top: N::Single|
            {
                &&& #[trigger] clocks_of::<N>(items@, clocks)
                &&& share_is::<N>(clocks, items@.len() as usize, mean)
                &&& call_ensures(N::single_of_u32, (freqs@[0],), lowest)
                &&& #[trigger] larger_is(mean, lowest, top)
                &&& call_ensures(N::u32_of_single, (top,), r.0)
            },
{
    let (clocks, mean, floor, floored) = choose|
        clocks: Seq<N::Single>,
        mean: N::Single,
        floor: N::Single,
        floored: N::Single,
    | cluster_steps::<N>(items@, freqs@[0], clocks, mean, floor, floored, r);
    assert(clocks_of::<N>(items@, clocks));
    assert(larger_is(mean, floor, floored));
}

} // verus!
