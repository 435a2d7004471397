//! Arithmetic over numbers with a fraction, and the division that never divides by zero.
//!
//! The number types are parameters, so what an operation returns is stated through the
//! operation itself: `call_ensures(T::add, (a, b), r)` reads "`r` is a result of `a + b`".
use core::ops::{Add, Div, Mul};
use vstd::prelude::*;

verus! {

/// The two floating-point types that the metrics are computed in, and the conversions
/// between them and the integers.
///
/// `Single` is the type that metrics are reported in and `Double` the one that
/// intermediate results are held in. Each conversion does what the `as` operator does
/// between the types that it is named after: it rounds towards the target's precision, and
/// saturates when the target is an integer.
pub trait Floats {
    type Single: Copy + Add<Output = Self::Single> + Div<Output = Self::Single> + Default + PartialOrd;

    type Double: Copy + Add<Output = Self::Double> + Mul<Output = Self::Double> + Div<
        Output = Self::Double,
    > + Default + PartialOrd;

    fn single_of_u32(x: u32) -> Self::Single;

    fn single_of_usize(x: usize) -> Self::Single;

    /// The number whose binary representation is `bits`.
    fn single_of_bits(bits: u32) -> Self::Single;

    fn single_of_double(x: Self::Double) -> Self::Single;

    fn double_of_u32(x: u32) -> Self::Double;

    fn double_of_i64(x: i64) -> Self::Double;

    fn double_of_u64(x: u64) -> Self::Double;

    fn u32_of_single(x: Self::Single) -> u32;

    fn u32_of_double(x: Self::Double) -> u32;

    fn u64_of_double(x: Self::Double) -> u64;
}

/// Every sum of two values of `T` is defined.
pub open spec fn add_total<T: Add<Output = T>>() -> bool {
    forall|a: T, b: T| #[trigger] call_requires(T::add, (a, b))
}

/// Every product of two values of `T` is defined.
pub open spec fn mul_total<T: Mul<Output = T>>() -> bool {
    forall|a: T, b: T| #[trigger] call_requires(T::mul, (a, b))
}

/// Every quotient of two values of `T` is defined, that by zero included.
pub open spec fn div_total<T: Div<Output = T>>() -> bool {
    forall|a: T, b: T| #[trigger] call_requires(T::div, (a, b))
}

/// The arithmetic of both floating-point types is defined on all values.
pub open spec fn total<N: Floats>() -> bool {
    &&& add_total::<N::Single>()
    &&& div_total::<N::Single>()
    &&& add_total::<N::Double>()
    &&& mul_total::<N::Double>()
    &&& div_total::<N::Double>()
}

/// `r` is what dividing `a` by `b` gives when a quotient by zero counts as zero.
pub open spec fn zero_div_is<T: Div<Output = T> + Default + PartialEq>(a: T, b: T, r: T) -> bool {
    exists|zero: T, same: bool|
        {
            &&& #[trigger] call_ensures(T::default, (), zero)
            &&& #[trigger] call_ensures(T::eq, (&b, &zero), same)
            &&& if same {
                r == zero
            } else {
                call_ensures(T::div, (a, b), r)
            }
        }
}

/// `a / b` is defined unless `b` equals the zero of its type.
pub open spec fn zero_div_defined<T: Div<Output = T> + Default + PartialEq>(a: T, b: T) -> bool {
    forall|zero: T|
        {
            &&& #[trigger] call_ensures(T::default, (), zero)
            &&& call_ensures(T::eq, (&b, &zero), false)
        } ==> call_requires(T::div, (a, b))
}

/// Divides `a` by `b`; a quotient by zero is zero.
pub fn zero_div<T: Div<Output = T> + Default + PartialEq>(a: T, b: T) -> (r: T)
    requires
        zero_div_defined(a, b),
    ensures
        zero_div_is(a, b, r),
{
    let zero: T = Default::default();
    if b == zero {
        zero
    } else {
        a / b
    }
}

/// On `u64`, `zero_div` is defined everywhere: it rounds the quotient down, and takes one by
/// zero as zero.
pub proof fn zero_div_of_u64(a: u64, b: u64, r: u64)
    ensures
        zero_div_defined(a, b),
        zero_div_is(a, b, r) ==> r == if b == 0 {
            0
        } else {
            a / b
        },
{
}

/// On `u32`, `zero_div` is defined everywhere: it rounds the quotient down, and takes one by
/// zero as zero.
pub proof fn zero_div_of_u32(a: u32, b: u32, r: u32)
    ensures
        zero_div_defined(a, b),
        zero_div_is(a, b, r) ==> r == if b == 0 {
            0
        } else {
            a / b
        },
{
}

/// `r` is what adding up `s` from the left gives, starting at the zero of the type.
pub open spec fn sum_is<T: Add<Output = T> + Default>(s: Seq<T>, r: T) -> bool
    decreases s.len(),
{
    if s.len() == 0 {
        call_ensures(T::default, (), r)
    } else {
        exists|partial: T|
            {
                &&& sum_is(s.drop_last(), partial)
                &&& #[trigger] call_ensures(T::add, (partial, s.last()), r)
            }
    }
}

/// Adds up `values` from the left.
pub fn sum<T: Copy + Add<Output = T> + Default>(values: &Vec<T>) -> (r: T)
    requires
        add_total::<T>(),
    ensures
        sum_is(values@, r),
{
    let mut acc: T = Default::default();
    for i in 0..values.len()
        invariant
            add_total::<T>(),
            sum_is(values@.take(i as int), acc),
    {
        let next = acc + values[i];
        proof {
            let s = values@.take(i + 1);
            assert(s.drop_last() == values@.take(i as int));
            assert(sum_is(s.drop_last(), acc) && call_ensures(T::add, (acc, s.last()), next));
        }
        acc = next;
    }
    assert(values@.take(values@.len() as int) == values@);
    acc
}

/// `r` is the sum of `s` divided by `count`, and zero where `count` is.
pub open spec fn share_is<N: Floats>(s: Seq<N::Single>, count: usize, r: N::Single) -> bool {
    exists|total: N::Single, n: N::Single|
        {
            &&& #[trigger] sum_is(s, total)
            &&& #[trigger] call_ensures(N::single_of_usize, (count,), n)
            &&& zero_div_is(total, n, r)
        }
}

/// The sum of `values` divided by `count`; zero where `count` is.
pub fn share<N: Floats>(values: &Vec<N::Single>, count: usize) -> (r: N::Single)
    requires
        total::<N>(),
    ensures
        share_is::<N>(values@, count, r),
{
    zero_div(sum(values), N::single_of_usize(count))
}

/// `r` is the larger of `a` and `b`. A value that does not equal itself, which is how a
/// floating-point type marks the absence of a number, loses against any other.
pub open spec fn larger_is<T: PartialOrd>(a: T, b: T, r: T) -> bool {
    exists|less: bool, odd: bool|
        {
            &&& #[trigger] call_ensures(T::lt, (&a, &b), less)
            &&& #[trigger] call_ensures(T::ne, (&a, &a), odd)
            &&& r == if less || odd {
                b
            } else {
                a
            }
        }
}

/// The larger of `a` and `b`; the other one where one of them is not a number.
pub fn larger<T: Copy + PartialOrd>(a: T, b: T) -> (r: T)
    ensures
        larger_is(a, b, r),
{
    let less = a < b;
    let odd = a != a;
    if less || odd {
        b
    } else {
        a
    }
}

/// What the numbers of a type stand for, where its arithmetic is exact: no operation rounds,
/// and `value` is the number that each value stands for. Nothing is said of a quotient by
/// zero.
pub open spec fn exact_type<T: Add<Output = T> + Div<Output = T> + Default + PartialOrd>(
    value: spec_fn(T) -> real,
) -> bool {
    &&& forall|zero: T| #[trigger] call_ensures(T::default, (), zero) ==> value(zero) == 0 as real
    &&& forall|a: T, b: T, r: T| #[trigger]
        call_ensures(T::add, (a, b), r) ==> value(r) == value(a) + value(b)
    &&& forall|a: T, b: T, r: T| #[trigger]
        call_ensures(T::div, (a, b), r) && value(b) != 0 as real ==> value(r) == value(a) / value(b)
    &&& forall|a: T, b: T, r: bool| #[trigger]
        call_ensures(T::eq, (&a, &b), r) ==> r == (value(a) == value(b))
    &&& forall|a: T, b: T, r: bool| #[trigger]
        call_ensures(T::ne, (&a, &b), r) ==> r == (value(a) != value(b))
    &&& forall|a: T, b: T, r: bool| #[trigger]
        call_ensures(T::lt, (&a, &b), r) ==> r == (value(a) < value(b))
}

/// `r` is `x` without its fraction, or the closest number of at most `max` that is not
/// negative.
pub open spec fn is_cut(x: real, max: int, r: int) -> bool {
    if x < 0 as real {
        r == 0
    } else if x >= (max + 1) as real {
        r == max
    } else {
        r as real <= x && x < (r + 1) as real
    }
}

/// The arithmetic of both floating-point types is exact, and `single` and `double` are the
/// numbers that their values stand for: operations and conversions do not round, but for
/// those to an integer, which drop the fraction.
pub open spec fn exact<N: Floats>(
    single: spec_fn(N::Single) -> real,
    double: spec_fn(N::Double) -> real,
) -> bool {
    &&& exact_type(single)
    &&& exact_type(double)
    &&& forall|a: N::Double, b: N::Double, r: N::Double| #[trigger]
        call_ensures(<N::Double as Mul>::mul, (a, b), r) ==> double(r) == double(a) * double(b)
    &&& forall|x: u32, r: N::Single| #[trigger]
        call_ensures(N::single_of_u32, (x,), r) ==> single(r) == x as real
    &&& forall|x: usize, r: N::Single| #[trigger]
        call_ensures(N::single_of_usize, (x,), r) ==> single(r) == x as real
    &&& forall|x: N::Double, r: N::Single| #[trigger]
        call_ensures(N::single_of_double, (x,), r) ==> single(r) == double(x)
    &&& forall|x: u32, r: N::Double| #[trigger]
        call_ensures(N::double_of_u32, (x,), r) ==> double(r) == x as real
    &&& forall|x: i64, r: N::Double| #[trigger]
        call_ensures(N::double_of_i64, (x,), r) ==> double(r) == x as real
    &&& forall|x: u64, r: N::Double| #[trigger]
        call_ensures(N::double_of_u64, (x,), r) ==> double(r) == x as real
    &&& forall|x: N::Single, r: u32| #[trigger]
        call_ensures(N::u32_of_single, (x,), r) ==> is_cut(single(x), u32::MAX as int, r as int)
    &&& forall|x: N::Double, r: u32| #[trigger]
        call_ensures(N::u32_of_double, (x,), r) ==> is_cut(double(x), u32::MAX as int, r as int)
    &&& forall|x: N::Double, r: u64| #[trigger]
        call_ensures(N::u64_of_double, (x,), r) ==> is_cut(double(x), u64::MAX as int, r as int)
}

/// What `f` gives for the items of `s` in all.
pub open spec fn real_total<A>(s: Seq<A>, f: spec_fn(A) -> real) -> real
    decreases s.len(),
{
    if s.len() == 0 {
        0 as real
    } else {
        real_total(s.drop_last(), f) + f(s.last())
    }
}

/// What `f` gives for the items of `s` in all, where it gives integers.
pub open spec fn int_total<A>(s: Seq<A>, f: spec_fn(A) -> int) -> int
    decreases s.len(),
{
    if s.len() == 0 {
        0
    } else {
        int_total(s.drop_last(), f) + f(s.last())
    }
}

pub(crate) proof fn sum_of_exact<T: Add<Output = T> + Div<Output = T> + Default + PartialOrd>(
    s: Seq<T>,
    r: T,
    value: spec_fn(T) -> real,
)
    requires
        exact_type(value),
        sum_is(s, r),
    ensures
        value(r) == real_total(s, value),
    decreases s.len(),
{
    if s.len() > 0 {
        let before = s.drop_last();
        let partial = choose|partial: T|
            {
                &&& sum_is(before, partial)
                &&& #[trigger] call_ensures(T::add, (partial, s.last()), r)
            };
        sum_of_exact(before, partial, value);
    }
}

/// Where arithmetic is exact, `sum` gives the sum of the values.
pub proof fn sum_adds_up<
    T: Copy + Add<Output = T> + Div<Output = T> + Default + PartialOrd,
>(values: Vec<T>, value: spec_fn(T) -> real, r: T)
    requires
        exact_type(value),
        call_ensures(sum::<T>, (&values,), r),
    ensures
        value(r) == real_total(values@, value),
{
    sum_of_exact(values@, r, value);
}

/// Where arithmetic is exact, `zero_div` gives the number that the divisor has to be taken
/// times to give the dividend, and zero where the divisor is.
pub proof fn zero_div_undoes_product<
    T: Add<Output = T> + Div<Output = T> + Default + PartialOrd,
>(a: T, b: T, value: spec_fn(T) -> real, r: T)
    requires
        exact_type(value),
        call_ensures(zero_div::<T>, (a, b), r),
    ensures
        value(b) != 0 as real ==> value(r) * value(b) == value(a),
        value(b) == 0 as real ==> value(r) == 0 as real,
{
    quotient_of_exact(a, b, r, value);
}

pub(crate) proof fn quotient_of_exact<T: Add<Output = T> + Div<Output = T> + Default + PartialOrd>(
    a: T,
    b: T,
    r: T,
    value: spec_fn(T) -> real,
)
    requires
        exact_type(value),
        zero_div_is(a, b, r),
    ensures
        value(b) != 0 as real ==> value(r) == value(a) / value(b) && value(r) * value(b) == value(
            a,
        ),
        value(b) == 0 as real ==> value(r) == 0 as real,
{
    let x = value(a);
    let y = value(b);
    if y != 0 as real {
        assert((x / y) * y == x) by (nonlinear_arith)
            requires
                y != 0 as real,
        ;
    }
}

pub(crate) proof fn share_of_exact<N: Floats>(
    s: Seq<N::Single>,
    count: usize,
    r: N::Single,
    single: spec_fn(N::Single) -> real,
    double: spec_fn(N::Double) -> real,
)
    requires
        exact::<N>(single, double),
        share_is::<N>(s, count, r),
    ensures
        count > 0 ==> single(r) * (count as real) == real_total(s, single),
        count == 0 ==> single(r) == 0 as real,
{
    let (total, n) = choose|total: N::Single, n: N::Single|
        {
            &&& #[trigger] sum_is(s, total)
            &&& #[trigger] call_ensures(N::single_of_usize, (count,), n)
            &&& zero_div_is(total, n, r)
        };
    sum_of_exact(s, total, single);
    quotient_of_exact(total, n, r, single);
}

/// Where arithmetic is exact, `share` spreads the sum of the values over `count` equal
/// parts: that many of them give the sum back. No parts are zero.
pub proof fn shares_give_the_sum_back<N: Floats>(
    values: Vec<N::Single>,
    count: usize,
    single: spec_fn(N::Single) -> real,
    double: spec_fn(N::Double) -> real,
    r: N::Single,
)
    requires
        exact::<N>(single, double),
        call_ensures(share::<N>, (&values, count), r),
    ensures
        count > 0 ==> single(r) * (count as real) == real_total(values@, single),
        count == 0 ==> single(r) == 0 as real,
{
    share_of_exact::<N>(values@, count, r, single, double);
}

pub(crate) proof fn larger_of_exact<T: Add<Output = T> + Div<Output = T> + Default + PartialOrd>(
    a: T,
    b: T,
    r: T,
    value: spec_fn(T) -> real,
)
    requires
        exact_type(value),
        larger_is(a, b, r),
    ensures
        r == a || r == b,
        value(r) >= value(a),
        value(r) >= value(b),
{
}

/// Where arithmetic is exact, `larger` gives one of the two numbers, and neither is above
/// it.
pub proof fn larger_is_an_upper_bound<
    T: Copy + Add<Output = T> + Div<Output = T> + Default + PartialOrd,
>(a: T, b: T, value: spec_fn(T) -> real, r: T)
    requires
        exact_type(value),
        call_ensures(larger::<T>, (a, b), r),
    ensures
        r == a || r == b,
        value(r) >= value(a),
        value(r) >= value(b),
{
    larger_of_exact(a, b, r, value);
}

/// `x` equals itself, as every number does.
pub open spec fn is_number<T: PartialOrd>(x: T) -> bool {
    forall|r: bool| #[trigger] call_ensures(T::ne, (&x, &x), r) ==> !r
}

/// `x` is not a number: it does not equal itself, and is neither below nor above anything.
pub open spec fn is_no_number<T: PartialOrd>(x: T) -> bool {
    &&& forall|r: bool| #[trigger] call_ensures(T::ne, (&x, &x), r) ==> r
    &&& forall|y: T, r: bool| #[trigger] call_ensures(T::lt, (&x, &y), r) ==> !r
    &&& forall|y: T, r: bool| #[trigger] call_ensures(T::lt, (&y, &x), r) ==> !r
}

/// Where one of the two is not a number, `larger` gives the other one.
pub proof fn larger_prefers_numbers<T: Copy + PartialOrd>(a: T, b: T, r: T)
    requires
        call_ensures(larger::<T>, (a, b), r),
    ensures
        is_no_number(a) ==> r == b,
        is_number(a) && is_no_number(b) ==> r == a,
{
}

/// `sum` adds from the left: behind the sum of some values comes the next value.
pub proof fn sum_takes_the_next_value<T: Copy + Add<Output = T> + Default>(s: Seq<T>, x: T, r: T)
    ensures
        sum_is(Seq::<T>::empty(), r) <==> call_ensures(T::default, (), r),
        sum_is(s.push(x), r) <==> exists|before: T|
            {
                &&& sum_is(s, before)
                &&& #[trigger] call_ensures(T::add, (before, x), r)
            },
{
    let more = s.push(x);
    assert(more.drop_last() =~= s && more.last() == x);
    if sum_is(more, r) {
        let before = choose|before: T|
            {
                &&& sum_is(more.drop_last(), before)
                &&& #[trigger] call_ensures(T::add, (before, more.last()), r)
            };
        assert(sum_is(s, before) && call_ensures(T::add, (before, x), r));
    }
    if exists|before: T| sum_is(s, before) && #[trigger] call_ensures(T::add, (before, x), r) {
        let before = choose|before: T|
            sum_is(s, before) && #[trigger] call_ensures(T::add, (before, x), r);
        assert(sum_is(more.drop_last(), before) && call_ensures(T::add, (before, more.last()), r));
    }
}

/// `partial` begins with the zero of the type and takes in one more of `values` each time.
pub open spec fn runs_through<T: Add<Output = T> + Default>(
    values: Seq<T>,
    partial: Seq<T>,
) -> bool {
    &&& partial.len() == values.len() + 1
    &&& call_ensures(T::default, (), partial[0])
    &&& forall|i: int|
        0 <= i < values.len() ==> call_ensures(
            T::add,
            (partial[i], #[trigger] values[i]),
            partial[i + 1],
        )
}

proof fn sums_run_through<T: Add<Output = T> + Default>(s: Seq<T>, r: T) -> (partial: Seq<T>)
    requires
        sum_is(s, r),
    ensures
        runs_through(s, partial),
        partial[s.len() as int] == r,
    decreases s.len(),
{
    if s.len() == 0 {
        seq![r]
    } else {
        let before = s.drop_last();
        let last = choose|last: T|
            {
                &&& sum_is(before, last)
                &&& #[trigger] call_ensures(T::add, (last, s.last()), r)
            };
        let partial = sums_run_through(before, last);
        let more = partial.push(r);
        assert forall|i: int| 0 <= i < s.len() implies call_ensures(
            T::add,
            (more[i], #[trigger] s[i]),
            more[i + 1],
        ) by {
            if i < before.len() {
                assert(before[i] == s[i]);
            }
        }
        more
    }
}

/// `sum` takes in one value after the other, from the left and none of them left out,
/// whatever the type rounds.
pub proof fn sum_runs_through_all_values<T: Copy + Add<Output = T> + Default>(
    values: Vec<T>,
    r: T,
)
    requires
        call_ensures(sum::<T>, (&values,), r),
    ensures
        exists|partial: Seq<T>| #[trigger]
            runs_through(values@, partial) && partial[values@.len() as int] == r,
{
    let partial = sums_run_through(values@, r);
    assert(runs_through(values@, partial));
}

/// Sums over items for which two functions agree are the same.
pub(crate) proof fn same_real_total<A, B>(
    a: Seq<A>,
    f: spec_fn(A) -> real,
    b: Seq<B>,
    g: spec_fn(B) -> real,
)
    requires
        a.len() == b.len(),
        forall|i: int| 0 <= i < a.len() ==> f(#[trigger] a[i]) == g(b[i]),
    ensures
        real_total(a, f) == real_total(b, g),
    decreases a.len(),
{
    if a.len() > 0 {
        assert(f(a[a.len() - 1]) == g(b[a.len() - 1]));
        assert forall|i: int| 0 <= i < a.drop_last().len() implies f(#[trigger] a.drop_last()[i])
            == g(b.drop_last()[i]) by {
            assert(f(a[i]) == g(b[i]));
        }
        same_real_total(a.drop_last(), f, b.drop_last(), g);
    }
}

/// Sums over items for which two functions agree are the same.
pub(crate) proof fn same_int_total<A, B>(
    a: Seq<A>,
    f: spec_fn(A) -> int,
    b: Seq<B>,
    g: spec_fn(B) -> int,
)
    requires
        a.len() == b.len(),
        forall|i: int| 0 <= i < a.len() ==> f(#[trigger] a[i]) == g(b[i]),
    ensures
        int_total(a, f) == int_total(b, g),
    decreases a.len(),
{
    if a.len() > 0 {
        assert(f(a[a.len() - 1]) == g(b[a.len() - 1]));
        assert forall|i: int| 0 <= i < a.drop_last().len() implies f(#[trigger] a.drop_last()[i])
            == g(b.drop_last()[i]) by {
            assert(f(a[i]) == g(b[i]));
        }
        same_int_total(a.drop_last(), f, b.drop_last(), g);
    }
}

/// A sum of integers is the same among the reals.
pub(crate) proof fn real_total_of_ints<A>(
    s: Seq<A>,
    f: spec_fn(A) -> int,
    g: spec_fn(A) -> real,
)
    requires
        forall|i: int| 0 <= i < s.len() ==> g(#[trigger] s[i]) == f(s[i]) as real,
    ensures
        real_total(s, g) == int_total(s, f) as real,
    decreases s.len(),
{
    if s.len() > 0 {
        assert(g(s[s.len() - 1]) == f(s[s.len() - 1]) as real);
        assert forall|i: int| 0 <= i < s.drop_last().len() implies g(#[trigger] s.drop_last()[i])
            == f(s.drop_last()[i]) as real by {
            assert(g(s[i]) == f(s[i]) as real);
        }
        real_total_of_ints(s.drop_last(), f, g);
    }
}

proof fn real_total_between<A>(s: Seq<A>, f: spec_fn(A) -> real, lo: real, hi: real)
    requires
        forall|i: int| 0 <= i < s.len() ==> lo <= f(#[trigger] s[i]) && f(s[i]) <= hi,
    ensures
        lo * (s.len() as real) <= real_total(s, f),
        real_total(s, f) <= hi * (s.len() as real),
    decreases s.len(),
{
    if s.len() > 0 {
        let last = s[s.len() - 1];
        assert(lo <= f(last) && f(last) <= hi);
        let before = s.drop_last();
        assert forall|i: int| 0 <= i < before.len() implies lo <= f(#[trigger] before[i]) && f(
            before[i],
        ) <= hi by {
            assert(lo <= f(s[i]) && f(s[i]) <= hi);
        }
        real_total_between(before, f, lo, hi);
        let n = before.len() as real;
        assert(s.len() as real == n + 1 as real);
        assert(lo * (n + 1 as real) == lo * n + lo) by (nonlinear_arith);
        assert(hi * (n + 1 as real) == hi * n + hi) by (nonlinear_arith);
    } else {
        assert(lo * (0 as real) == 0 as real) by (nonlinear_arith);
        assert(hi * (0 as real) == 0 as real) by (nonlinear_arith);
    }
}

/// A mean stays between two bounds of the values.
pub(crate) proof fn mean_between<A>(s: Seq<A>, f: spec_fn(A) -> real, lo: real, hi: real, mean: real)
    requires
        s.len() > 0,
        forall|i: int| 0 <= i < s.len() ==> lo <= f(#[trigger] s[i]) && f(s[i]) <= hi,
        mean * (s.len() as real) == real_total(s, f),
    ensures
        lo <= mean,
        mean <= hi,
{
    real_total_between(s, f, lo, hi);
    let n = s.len() as real;
    assert(lo <= mean && mean <= hi) by (nonlinear_arith)
        requires
            n > 0 as real,
            lo * n <= mean * n,
            mean * n <= hi * n,
    ;
}

/// `zero_div` gives the zero of the type where the divisor equals it, and else the quotient,
/// whatever the type rounds.
pub proof fn zero_div_divides_by_all_but_zero<T: Div<Output = T> + Default + PartialEq>(
    a: T,
    b: T,
    r: T,
)
    requires
        call_ensures(zero_div::<T>, (a, b), r),
    ensures
        (forall|zero: T, same: bool| #[trigger]
            call_ensures(T::default, (), zero) && #[trigger] call_ensures(T::eq, (&b, &zero), same)
                ==> same) ==> call_ensures(T::default, (), r),
        (forall|zero: T, same: bool| #[trigger]
            call_ensures(T::default, (), zero) && #[trigger] call_ensures(T::eq, (&b, &zero), same)
                ==> !same) ==> call_ensures(T::div, (a, b), r),
{
}

/// Where the operations are defined on all values, so are sums, shares and quotients.
pub proof fn sums_and_shares_are_defined<N: Floats>(
    values: Vec<N::Single>,
    count: usize,
    a: N::Double,
    b: N::Double,
)
    requires
        total::<N>(),
    ensures
        call_requires(sum::<N::Single>, (&values,)),
        call_requires(share::<N>, (&values, count)),
        call_requires(zero_div::<N::Double>, (a, b)),
        call_requires(larger::<N::Double>, (a, b)),
{
}

/// `share` adds up before it divides, and divides once.
pub proof fn shares_are_divided_once<N: Floats>(values: Vec<N::Single>, count: usize, r: N::Single)
    requires
        call_ensures(share::<N>, (&values, count), r),
    ensures
        exists|all: N::Single, n: N::Single|
            {
                &&& #[trigger] sum_is(values@, all)
                &&& #[trigger] call_ensures(N::single_of_usize, (count,), n)
                &&& zero_div_is(all, n, r)
            },
{
}

} // verus!
