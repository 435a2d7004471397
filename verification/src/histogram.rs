//! Histograms of bandwidth: how often each range of it was seen.
use crate::arith::{int_total, zero_div, zero_div_of_u64};
use crate::text::texts;
use vstd::prelude::*;

verus! {

/// A count for each label; `values[i]` belongs to `labels[i]`.
#[derive(Debug)]
pub struct MetricHistogram {
    pub labels: Vec<String>,
    pub values: Vec<u64>,
}

/// A histogram as a pair of sequences, with counts that have no upper bound.
#[verifier::ext_equal]
pub struct HistogramView {
    pub labels: Seq<Seq<char>>,
    pub values: Seq<int>,
}

/// `i` is the first position of `label`.
pub open spec fn is_first(labels: Seq<Seq<char>>, label: Seq<char>, i: int) -> bool {
    &&& 0 <= i < labels.len()
    &&& labels[i] == label
    &&& forall|j: int| 0 <= j < i ==> labels[j] != label
}

impl HistogramView {
    /// Each label has a count and each count a label, and no count is negative.
    pub open spec fn wf(self) -> bool {
        &&& self.labels.len() == self.values.len()
        &&& forall|i: int| 0 <= i < self.values.len() ==> 0 <= #[trigger] self.values[i]
    }

    /// The histogram with `amount` more at `label`: at the first place that carries the
    /// label, or at a new place behind the others.
    pub open spec fn plus(self, label: Seq<char>, amount: int) -> HistogramView {
        if self.labels.contains(label) {
            let i = choose|i: int| is_first(self.labels, label, i);
            HistogramView { labels: self.labels, values: self.values.update(i, self.values[i] + amount) }
        } else {
            HistogramView { labels: self.labels.push(label), values: self.values.push(amount) }
        }
    }

    /// The histogram with the first `n` counts of `other` added to it, in order.
    pub open spec fn merge(self, other: HistogramView, n: int) -> HistogramView
        decreases n,
    {
        if n <= 0 {
            self
        } else {
            self.merge(other, n - 1).plus(other.labels[n - 1], other.values[n - 1])
        }
    }

    /// The histogram with all counts of `other` added to it.
    pub open spec fn sum(self, other: HistogramView) -> HistogramView {
        self.merge(other, other.values.len() as int)
    }

    /// Every count can be held in 64 bits.
    pub open spec fn fits(self) -> bool {
        forall|i: int| 0 <= i < self.values.len() ==> #[trigger] self.values[i] <= u64::MAX
    }

    /// Every count divided by `count`, and zero where `count` is.
    pub open spec fn divided(self, count: int) -> HistogramView {
        HistogramView {
            labels: self.labels,
            values: self.values.map_values(
                |v: int|
                    if count == 0 {
                        0
                    } else {
                        v / count
                    },
            ),
        }
    }

    /// `events` can be counted in: nothing was counted yet, or there is one event for each
    /// place.
    pub open spec fn takes(self, events: Seq<(String, i64)>) -> bool {
        self.values.len() == 0 || self.values.len() == events.len()
    }

    /// The histogram with each event counted at its place. The first events that are
    /// counted give the labels. A count below zero is read as the unsigned number with the
    /// same bits.
    pub open spec fn counted(self, events: Seq<(String, i64)>) -> HistogramView {
        if self.values.len() == 0 {
            HistogramView {
                labels: events.map_values(|e: (String, i64)| e.0@),
                values: events.map_values(|e: (String, i64)| e.1 as u64 as int),
            }
        } else {
            HistogramView {
                labels: self.labels,
                values: Seq::new(
                    self.values.len(),
                    |i: int| self.values[i] + (events[i].1 as u64),
                ),
            }
        }
    }

    /// What the first `n` places hold for `label` in all.
    pub open spec fn weight_of(self, label: Seq<char>, n: int) -> int
        decreases n,
    {
        if n <= 0 {
            0
        } else {
            self.weight_of(label, n - 1) + if self.labels[n - 1] == label {
                self.values[n - 1]
            } else {
                0
            }
        }
    }

    /// What the histogram holds for `label` in all.
    pub open spec fn weight(self, label: Seq<char>) -> int {
        self.weight_of(label, self.values.len() as int)
    }
}

impl View for MetricHistogram {
    type V = HistogramView;

    open spec fn view(&self) -> HistogramView {
        HistogramView {
            labels: texts(self.labels@),
            values: self.values@.map_values(|v: u64| v as int),
        }
    }
}

impl MetricHistogram {
    /// Each label has a count and each count a label.
    pub open spec fn wf(self) -> bool {
        self.labels@.len() == self.values@.len()
    }
}

impl Default for MetricHistogram {
    /// The histogram without labels.
    fn default() -> (r: MetricHistogram)
        ensures
            r.wf(),
            r.labels@.len() == 0,
            r@ == no_counts(),
    {
        MetricHistogram { labels: Vec::new(), values: Vec::new() }
    }
}

impl Clone for MetricHistogram {
    fn clone(&self) -> (r: MetricHistogram)
        ensures
            r.labels@ == self.labels@,
            r.values@ == self.values@,
            r@ == self@,
    {
        MetricHistogram { labels: self.labels.clone(), values: self.values.clone() }
    }
}

/// The histogram without labels.
pub open spec fn no_counts() -> HistogramView {
    HistogramView { labels: Seq::empty(), values: Seq::empty() }
}

/// The histogram of several lists of events, counted in one after the other.
pub open spec fn count_all(lists: Seq<Seq<(String, i64)>>) -> HistogramView
    decreases lists.len(),
{
    if lists.len() == 0 {
        no_counts()
    } else {
        count_all(lists.drop_last()).counted(lists.last())
    }
}

/// The lists can be counted in one after the other: each has an event for each place, and
/// no count outgrows 64 bits.
pub open spec fn countable(lists: Seq<Seq<(String, i64)>>) -> bool
    decreases lists.len(),
{
    lists.len() > 0 ==> {
        &&& countable(lists.drop_last())
        &&& count_all(lists.drop_last()).takes(lists.last())
        &&& count_all(lists).fits()
    }
}

/// The sum of several histograms, added up from the left; the empty one where there are
/// none.
pub open spec fn sum_all(hists: Seq<HistogramView>) -> HistogramView
    decreases hists.len(),
{
    if hists.len() == 0 {
        no_counts()
    } else if hists.len() == 1 {
        hists[0]
    } else {
        sum_all(hists.drop_last()).sum(hists.last())
    }
}

/// No count outgrows 64 bits while the histograms are added up from the left.
pub open spec fn summable(hists: Seq<HistogramView>) -> bool
    decreases hists.len(),
{
    hists.len() > 1 ==> {
        &&& summable(hists.drop_last())
        &&& sum_all(hists).fits()
    }
}

/// A label that occurs has a first position.
proof fn first_exists(labels: Seq<Seq<char>>, label: Seq<char>, n: int)
    requires
        0 <= n < labels.len(),
        labels[n] == label,
    ensures
        exists|i: int| is_first(labels, label, i),
    decreases n,
{
    if forall|j: int| 0 <= j < n ==> labels[j] != label {
        assert(is_first(labels, label, n));
    } else {
        let j = choose|j: int| 0 <= j < n && labels[j] == label;
        first_exists(labels, label, j);
    }
}

/// The first position of a label that occurs.
proof fn first_of(labels: Seq<Seq<char>>, label: Seq<char>) -> (i: int)
    requires
        labels.contains(label),
    ensures
        is_first(labels, label, i),
{
    let n = choose|n: int| 0 <= n < labels.len() && labels[n] == label;
    first_exists(labels, label, n);
    choose|i: int| is_first(labels, label, i)
}

/// `plus` with the place that it adds to made explicit.
proof fn plus_at(h: HistogramView, label: Seq<char>, amount: int, i: int)
    requires
        is_first(h.labels, label, i),
    ensures
        h.plus(label, amount) == (HistogramView {
            labels: h.labels,
            values: h.values.update(i, h.values[i] + amount),
        }),
{
    assert(h.labels.contains(label));
    let k = choose|k: int| is_first(h.labels, label, k);
    assert(is_first(h.labels, label, k));
    assert(k == i);
}

proof fn plus_keeps(h: HistogramView, label: Seq<char>, amount: int)
    requires
        h.wf(),
        amount >= 0,
    ensures
        h.plus(label, amount).wf(),
        h.labels.is_prefix_of(h.plus(label, amount).labels),
        h.plus(label, amount).labels.contains(label),
        forall|j: int|
            0 <= j < h.values.len() ==> h.values[j] <= #[trigger] h.plus(label, amount).values[j],
        h.labels.no_duplicates() ==> h.plus(label, amount).labels.no_duplicates(),
{
    if h.labels.contains(label) {
        let i = first_of(h.labels, label);
        plus_at(h, label, amount, i);
    } else {
        assert(h.plus(label, amount).labels[h.labels.len() as int] == label);
    }
}

/// Adding up histograms only appends labels and only raises counts.
pub proof fn merge_grows(a: HistogramView, b: HistogramView, m: int, n: int)
    requires
        a.wf(),
        b.wf(),
        0 <= m <= n <= b.values.len(),
    ensures
        a.merge(b, m).wf(),
        a.merge(b, n).wf(),
        a.merge(b, m).labels.is_prefix_of(a.merge(b, n).labels),
        forall|j: int|
            0 <= j < a.merge(b, m).values.len() ==> a.merge(b, m).values[j] <= #[trigger] a.merge(
                b,
                n,
            ).values[j],
        a.labels.no_duplicates() ==> a.merge(b, n).labels.no_duplicates(),
    decreases n,
{
    if n > 0 {
        if m == n {
            merge_grows(a, b, m - 1, n - 1);
            plus_keeps(a.merge(b, n - 1), b.labels[n - 1], b.values[n - 1]);
        } else {
            merge_grows(a, b, m, n - 1);
            plus_keeps(a.merge(b, n - 1), b.labels[n - 1], b.values[n - 1]);
            let before = a.merge(b, n - 1);
            let after = a.merge(b, n);
            assert forall|j: int| 0 <= j < a.merge(b, m).values.len() implies a.merge(b, m).values[j]
                <= #[trigger] after.values[j] by {
                assert(before.values[j] <= after.values[j]);
            }
        }
    }
}

fn first_label(labels: &Vec<String>, label: &String) -> (r: Option<usize>)
    ensures
        match r {
            Some(i) => is_first(texts(labels@), label@, i as int),
            None => !texts(labels@).contains(label@),
        },
{
    for i in 0..labels.len()
        invariant
            forall|j: int| 0 <= j < i ==> texts(labels@)[j] != label@,
    {
        if labels[i] == *label {
            return Some(i);
        }
    }
    None
}

/// The counts of `a` and `b` added up label by label, or nothing where a count would not
/// fit.
///
/// The labels of `a` come first, in their order, then those that only `b` has, in theirs.
pub fn checked_sum_hist(a: &MetricHistogram, b: &MetricHistogram) -> (r: Option<MetricHistogram>)
    requires
        a.wf(),
        b.wf(),
    ensures
        r is Some <==> a@.sum(b@).fits(),
        r matches Some(h) ==> h.wf() && h@ == a@.sum(b@),
{
    let mut labels = a.labels.clone();
    let mut values = a.values.clone();
    assert(labels@ == a.labels@);
    assert(values@ == a.values@);
    for i in 0..b.values.len()
        invariant
            a.wf(),
            b.wf(),
            labels@.len() == values@.len(),
            a@.merge(b@, i as int) == (HistogramView {
                labels: texts(labels@),
                values: values@.map_values(|v: u64| v as int),
            }),
    {
        let ghost before = a@.merge(b@, i as int);
        let ghost after = a@.merge(b@, i + 1);
        proof {
            merge_grows(a@, b@, i + 1, b@.values.len() as int);
            assert(after == before.plus(b@.labels[i as int], b@.values[i as int]));
        }
        match first_label(&labels, &b.labels[i]) {
            Some(idx) => {
                proof {
                    plus_at(before, b@.labels[i as int], b@.values[i as int], idx as int);
                }
                match values[idx].checked_add(b.values[i]) {
                    Some(v) => {
                        values.set(idx, v);
                        assert(values@.map_values(|v: u64| v as int) =~= after.values);
                    },
                    None => {
                        assert(after.values[idx as int] > u64::MAX);
                        assert(a@.sum(b@).values[idx as int] > u64::MAX);
                        return None;
                    },
                }
            },
            None => {
                labels.push(b.labels[i].clone());
                values.push(b.values[i]);
                assert(values@.map_values(|v: u64| v as int) =~= after.values);
                assert(texts(labels@) =~= after.labels);
            },
        }
    }
    let h = MetricHistogram { labels, values };
    assert forall|j: int| 0 <= j < h@.values.len() implies #[trigger] h@.values[j] <= u64::MAX by {
        assert(h@.values[j] == h.values@[j]);
    }
    Some(h)
}

/// The counts of `a` and `b` added up label by label.
///
/// The labels of `a` come first, in their order, then those that only `b` has, in theirs.
pub fn sum_hist(a: &MetricHistogram, b: &MetricHistogram) -> (r: MetricHistogram)
    requires
        a.wf(),
        b.wf(),
        a@.sum(b@).fits(),
    ensures
        r.wf(),
        r@ == a@.sum(b@),
{
    match checked_sum_hist(a, b) {
        Some(h) => h,
        None => Default::default(),
    }
}

/// The histogram `a` with every count divided by `b`; a quotient by zero is zero.
pub fn zero_div_hist(a: &MetricHistogram, b: u64) -> (r: MetricHistogram)
    ensures
        a.wf() ==> r.wf(),
        r.labels@ == a.labels@,
        r@ == a@.divided(b as int),
{
    let mut values: Vec<u64> = Vec::new();
    for i in 0..a.values.len()
        invariant
            values@.len() == i,
            forall|j: int|
                0 <= j < i ==> #[trigger] values@[j] == if b == 0 {
                    0
                } else {
                    a.values@[j] / b
                },
    {
        let quotient = zero_div(a.values[i], b);
        proof {
            zero_div_of_u64(a.values@[i as int], b, quotient);
        }
        values.push(quotient);
    }
    let labels = a.labels.clone();
    assert(labels@ == a.labels@);
    let r = MetricHistogram { labels, values };
    assert(r@.values =~= a@.divided(b as int).values);
    r
}

/// Raising one count raises the weight of its label by as much, and no other.
proof fn weight_of_update(h: HistogramView, label: Seq<char>, n: int, i: int, amount: int)
    requires
        h.wf(),
        0 <= i < h.values.len(),
        0 <= n <= h.values.len(),
    ensures
        (HistogramView {
            labels: h.labels,
            values: h.values.update(i, h.values[i] + amount),
        }).weight_of(label, n) == h.weight_of(label, n) + if i < n && h.labels[i] == label {
            amount
        } else {
            0
        },
    decreases n,
{
    if n > 0 {
        weight_of_update(h, label, n - 1, i, amount);
    }
}

/// What the first places hold does not depend on what stands behind them.
proof fn weight_of_prefix(g: HistogramView, h: HistogramView, label: Seq<char>, n: int)
    requires
        0 <= n <= g.labels.len(),
        n <= g.values.len(),
        n <= h.labels.len(),
        n <= h.values.len(),
        forall|j: int| 0 <= j < n ==> #[trigger] g.labels[j] == h.labels[j],
        forall|j: int| 0 <= j < n ==> #[trigger] g.values[j] == h.values[j],
    ensures
        g.weight_of(label, n) == h.weight_of(label, n),
    decreases n,
{
    if n > 0 {
        weight_of_prefix(g, h, label, n - 1);
        assert(g.labels[n - 1] == h.labels[n - 1]);
        assert(g.values[n - 1] == h.values[n - 1]);
    }
}

proof fn plus_weight(h: HistogramView, label: Seq<char>, amount: int, at: Seq<char>)
    requires
        h.wf(),
    ensures
        h.plus(label, amount).weight(at) == h.weight(at) + if at == label {
            amount
        } else {
            0
        },
{
    let len = h.values.len() as int;
    if h.labels.contains(label) {
        let i = first_of(h.labels, label);
        plus_at(h, label, amount, i);
        weight_of_update(h, at, len, i, amount);
    } else {
        weight_of_prefix(h.plus(label, amount), h, at, len);
    }
}

proof fn merge_weight(a: HistogramView, b: HistogramView, n: int, label: Seq<char>)
    requires
        a.wf(),
        b.wf(),
        0 <= n <= b.values.len(),
    ensures
        a.merge(b, n).weight(label) == a.weight(label) + b.weight_of(label, n),
    decreases n,
{
    if n > 0 {
        merge_weight(a, b, n - 1, label);
        merge_grows(a, b, n - 1, n - 1);
        plus_weight(a.merge(b, n - 1), b.labels[n - 1], b.values[n - 1], label);
    }
}

/// Nothing is lost or invented when two histograms are added up: the sum holds for every
/// label what the two hold for it together.
pub proof fn sum_adds_weights(a: HistogramView, b: HistogramView, label: Seq<char>)
    requires
        a.wf(),
        b.wf(),
    ensures
        a.sum(b).weight(label) == a.weight(label) + b.weight(label),
{
    merge_weight(a, b, b.values.len() as int, label);
}

/// Which of two histograms is added to the other does not change what the sum holds for
/// any label.
pub proof fn sum_order_is_immaterial(a: HistogramView, b: HistogramView, label: Seq<char>)
    requires
        a.wf(),
        b.wf(),
    ensures
        a.sum(b).weight(label) == b.sum(a).weight(label),
{
    sum_adds_weights(a, b, label);
    sum_adds_weights(b, a, label);
}

proof fn merge_labels(a: HistogramView, b: HistogramView, n: int, label: Seq<char>)
    requires
        a.wf(),
        b.wf(),
        0 <= n <= b.values.len(),
    ensures
        a.merge(b, n).labels.contains(label) <==> a.labels.contains(label) || b.labels.take(
            n,
        ).contains(label),
    decreases n,
{
    if n > 0 {
        merge_labels(a, b, n - 1, label);
        merge_grows(a, b, n - 1, n - 1);
        let before = a.merge(b, n - 1);
        let after = before.plus(b.labels[n - 1], b.values[n - 1]);
        plus_keeps(before, b.labels[n - 1], b.values[n - 1]);
        assert(b.labels.take(n) =~= b.labels.take(n - 1).push(b.labels[n - 1]));
        assert(b.labels.take(n)[n - 1] == b.labels[n - 1]);
        if b.labels.take(n - 1).contains(label) {
            let shorter = b.labels.take(n - 1);
            let j = choose|j: int| 0 <= j < shorter.len() && shorter[j] == label;
            assert(b.labels.take(n)[j] == label);
        }
        if before.labels.contains(label) {
            let j = choose|j: int| 0 <= j < before.labels.len() && before.labels[j] == label;
            assert(after.labels[j] == label);
        }
    } else {
        assert(!b.labels.take(0).contains(label));
    }
}

/// The sum of two histograms has the labels of the first, in place, and those of the
/// second; where the labels of the first are distinct, so are those of the sum.
pub proof fn sum_keeps_labels(a: HistogramView, b: HistogramView)
    requires
        a.wf(),
        b.wf(),
    ensures
        a.sum(b).wf(),
        a.labels.is_prefix_of(a.sum(b).labels),
        forall|label: Seq<char>| #[trigger]
            a.sum(b).labels.contains(label) <==> a.labels.contains(label) || b.labels.contains(
                label,
            ),
        a.labels.no_duplicates() ==> a.sum(b).labels.no_duplicates(),
{
    let n = b.values.len() as int;
    merge_grows(a, b, 0, n);
    assert(b.labels.take(n) =~= b.labels);
    assert forall|label: Seq<char>| #[trigger]
        a.sum(b).labels.contains(label) <==> a.labels.contains(label) || b.labels.contains(
            label,
        ) by {
        merge_labels(a, b, n, label);
    }
}

/// Counts `events` in, each at its place, or gives nothing where there is not one event
/// for each place or a count would not fit.
pub fn checked_count(h: &MetricHistogram, events: &Vec<(String, i64)>) -> (r: Option<
    MetricHistogram,
>)
    requires
        h.wf(),
    ensures
        r is Some <==> h@.takes(events@) && h@.counted(events@).fits(),
        r matches Some(sum) ==> sum.wf() && sum@ == h@.counted(events@),
{
    let fresh = h.values.len() == 0;
    if !fresh && h.values.len() != events.len() {
        return None;
    }
    let mut labels: Vec<String> = Vec::new();
    let mut values: Vec<u64> = Vec::new();
    for i in 0..events.len()
        invariant
            h.wf(),
            fresh == (h.values@.len() == 0),
            fresh || h.values@.len() == events@.len(),
            labels@.len() == i,
            values@.len() == i,
            texts(labels@) == h@.counted(events@).labels.take(i as int),
            values@.map_values(|v: u64| v as int) == h@.counted(events@).values.take(i as int),
    {
        let ghost want = h@.counted(events@);
        let (label, count): (&String, u64) = if fresh {
            (&events[i].0, 0)
        } else {
            (&h.labels[i], h.values[i])
        };
        match count.checked_add(#[verifier::truncate] (events[i].1 as u64)) {
            Some(v) => {
                labels.push(label.clone());
                values.push(v);
                assert(texts(labels@) =~= want.labels.take(i + 1));
                assert(values@.map_values(|v: u64| v as int) =~= want.values.take(i + 1));
            },
            None => {
                assert(want.values[i as int] > u64::MAX);
                return None;
            },
        }
    }
    let r = MetricHistogram { labels, values };
    assert(r@ =~= h@.counted(events@));
    assert forall|j: int| 0 <= j < r@.values.len() implies #[trigger] r@.values[j] <= u64::MAX by {
        assert(r@.values[j] == r.values@[j]);
    }
    Some(r)
}

/// What the lists `lists` hold at place `i` in all, each number read as unsigned.
pub open spec fn column(lists: Seq<Seq<(String, i64)>>, i: int) -> int
    decreases lists.len(),
{
    if lists.len() == 0 {
        0
    } else {
        column(lists.drop_last(), i) + (lists.last()[i].1 as u64)
    }
}

/// Lists of events that all have the same length are counted place by place, under the
/// labels of the first list.
pub proof fn counts_are_columns(lists: Seq<Seq<(String, i64)>>)
    requires
        lists.len() > 0,
        forall|k: int| 0 <= k < lists.len() ==> #[trigger] lists[k].len() == lists[0].len(),
    ensures
        count_all(lists).labels == lists[0].map_values(|e: (String, i64)| e.0@),
        count_all(lists).values == Seq::new(lists[0].len(), |i: int| column(lists, i)),
    decreases lists.len(),
{
    let before = lists.drop_last();
    if lists.len() == 1 {
        assert(count_all(before) == no_counts());
        assert forall|i: int| 0 <= i < lists[0].len() implies column(lists, i) == lists[0][i].1 as u64 by {
            assert(column(before, i) == 0);
        }
        assert(count_all(lists).values =~= Seq::new(lists[0].len(), |i: int| column(lists, i)));
    } else {
        assert forall|k: int| 0 <= k < before.len() implies #[trigger] before[k].len()
            == before[0].len() by {
            assert(before[k] == lists[k]);
        }
        counts_are_columns(before);
        assert(lists[lists.len() - 1].len() == lists[0].len());
        if lists[0].len() == 0 {
            assert(count_all(lists).labels =~= lists[0].map_values(|e: (String, i64)| e.0@));
        }
        assert(count_all(lists).values =~= Seq::new(lists[0].len(), |i: int| column(lists, i)));
    }
}

proof fn places_of_counted(lists: Seq<Seq<(String, i64)>>, i: int)
    requires
        countable(lists),
        0 <= i < lists.len(),
        lists[i].len() > 0,
    ensures
        count_all(lists).values.len() == lists[i].len(),
    decreases lists.len(),
{
    if i < lists.len() - 1 {
        assert(lists.drop_last()[i] == lists[i]);
        places_of_counted(lists.drop_last(), i);
    }
}

/// Lists of events are never counted in part: behind one that is not empty, a list of
/// another length cannot be counted at all.
pub proof fn unequal_lists_are_not_countable(lists: Seq<Seq<(String, i64)>>, i: int, j: int)
    requires
        0 <= i < j < lists.len(),
        lists[i].len() > 0,
        lists[j].len() != lists[i].len(),
    ensures
        !countable(lists),
    decreases lists.len(),
{
    if countable(lists) {
        let before = lists.drop_last();
        assert(before[i] == lists[i]);
        if j == lists.len() - 1 {
            places_of_counted(before, i);
        } else {
            assert(before[j] == lists[j]);
            unequal_lists_are_not_countable(before, i, j);
        }
    }
}

/// `h` with every count taken `n` times.
pub open spec fn times(h: HistogramView, n: int) -> HistogramView {
    HistogramView { labels: h.labels, values: h.values.map_values(|v: int| v * n) }
}

proof fn merge_times(h: HistogramView, c: int, n: int)
    requires
        h.wf(),
        h.labels.no_duplicates(),
        0 <= n <= h.values.len(),
    ensures
        times(h, c).merge(h, n).labels == h.labels,
        times(h, c).merge(h, n).values == Seq::new(
            h.values.len(),
            |i: int|
                if i < n {
                    h.values[i] * (c + 1)
                } else {
                    h.values[i] * c
                },
        ),
    decreases n,
{
    if n > 0 {
        merge_times(h, c, n - 1);
        let before = times(h, c).merge(h, n - 1);
        assert(is_first(before.labels, h.labels[n - 1], n - 1));
        plus_at(before, h.labels[n - 1], h.values[n - 1], n - 1);
        assert(h.values[n - 1] * c + h.values[n - 1] == h.values[n - 1] * (c + 1)) by (nonlinear_arith);
    }
    assert(times(h, c).merge(h, n).values =~= Seq::new(
        h.values.len(),
        |i: int|
            if i < n {
                h.values[i] * (c + 1)
            } else {
                h.values[i] * c
            },
    ));
}

proof fn sum_all_times(hists: Seq<HistogramView>, h: HistogramView)
    requires
        h.wf(),
        h.labels.no_duplicates(),
        hists.len() > 0,
        forall|i: int| 0 <= i < hists.len() ==> #[trigger] hists[i] == h,
    ensures
        sum_all(hists) == times(h, hists.len() as int),
    decreases hists.len(),
{
    let n = hists.len() as int;
    if n == 1 {
        assert(times(h, 1).values =~= h.values);
    } else {
        sum_all_times(hists.drop_last(), h);
        merge_times(h, n - 1, h.values.len() as int);
        assert(sum_all(hists).values =~= times(h, n).values);
    }
}

/// Averaging equal histograms with distinct labels gives the same histogram back.
pub proof fn mean_of_equal_histograms(hists: Seq<HistogramView>, h: HistogramView)
    requires
        h.wf(),
        h.labels.no_duplicates(),
        hists.len() > 0,
        forall|i: int| 0 <= i < hists.len() ==> #[trigger] hists[i] == h,
    ensures
        sum_all(hists).divided(hists.len() as int) == h,
{
    let n = hists.len() as int;
    sum_all_times(hists, h);
    assert forall|i: int| 0 <= i < h.values.len() implies (#[trigger] h.values[i] * n) / n
        == h.values[i] by {
        vstd::arithmetic::div_mod::lemma_div_by_multiple(h.values[i], n);
    }
    assert(sum_all(hists).divided(n).values =~= h.values);
}

proof fn merge_into_none(h: HistogramView, n: int)
    requires
        h.wf(),
        h.labels.no_duplicates(),
        0 <= n <= h.values.len(),
    ensures
        no_counts().merge(h, n).labels == h.labels.take(n),
        no_counts().merge(h, n).values == h.values.take(n),
    decreases n,
{
    if n > 0 {
        merge_into_none(h, n - 1);
        assert(!h.labels.take(n - 1).contains(h.labels[n - 1]));
        assert(h.labels.take(n) =~= h.labels.take(n - 1).push(h.labels[n - 1]));
        assert(h.values.take(n) =~= h.values.take(n - 1).push(h.values[n - 1]));
    } else {
        assert(h.labels.take(0) =~= no_counts().labels);
        assert(h.values.take(0) =~= no_counts().values);
    }
}

/// A sample without a histogram does not change the sum: adding the empty histogram, or
/// adding one with distinct labels to it, gives the other one.
pub proof fn empty_histogram_is_neutral(h: HistogramView)
    requires
        h.wf(),
    ensures
        h.sum(no_counts()) == h,
        h.labels.no_duplicates() ==> no_counts().sum(h) == h,
{
    if h.labels.no_duplicates() {
        merge_into_none(h, h.values.len() as int);
        assert(h.labels.take(h.values.len() as int) =~= h.labels);
        assert(h.values.take(h.values.len() as int) =~= h.values);
    }
}

/// Adding twice at a label is adding once.
proof fn plus_twice(h: HistogramView, label: Seq<char>, x: int, y: int)
    requires
        h.wf(),
    ensures
        h.plus(label, x).plus(label, y) == h.plus(label, x + y),
{
    let once = h.plus(label, x);
    if h.labels.contains(label) {
        let i = first_of(h.labels, label);
        plus_at(h, label, x, i);
        plus_at(h, label, x + y, i);
        plus_at(once, label, y, i);
    } else {
        assert(is_first(once.labels, label, h.labels.len() as int));
        plus_at(once, label, y, h.labels.len() as int);
    }
    assert(once.plus(label, y).values =~= h.plus(label, x + y).values);
}

/// Adding at a label that is there can wait until something else was added.
proof fn plus_commutes(h: HistogramView, label: Seq<char>, x: int, other: Seq<char>, y: int)
    requires
        h.wf(),
        h.labels.contains(label),
    ensures
        h.plus(label, x).plus(other, y) == h.plus(other, y).plus(label, x),
{
    let i = first_of(h.labels, label);
    let here = h.plus(label, x);
    let there = h.plus(other, y);
    plus_at(h, label, x, i);
    if h.labels.contains(other) {
        let j = first_of(h.labels, other);
        plus_at(h, other, y, j);
        plus_at(here, other, y, j);
        plus_at(there, label, x, i);
    } else {
        assert(is_first(there.labels, label, i));
        plus_at(there, label, x, i);
    }
    assert(here.plus(other, y).values =~= there.plus(label, x).values);
}

/// What is added up does not depend on what stands behind it.
proof fn merge_prefix(a: HistogramView, b: HistogramView, c: HistogramView, n: int)
    requires
        forall|j: int| 0 <= j < n ==> #[trigger] b.labels[j] == c.labels[j],
        forall|j: int| 0 <= j < n ==> #[trigger] b.values[j] == c.values[j],
    ensures
        a.merge(b, n) == a.merge(c, n),
    decreases n,
{
    if n > 0 {
        merge_prefix(a, b, c, n - 1);
        assert(b.labels[n - 1] == c.labels[n - 1]);
        assert(b.values[n - 1] == c.values[n - 1]);
    }
}

proof fn merge_raised(a: HistogramView, b: HistogramView, i: int, x: int, n: int)
    requires
        a.wf(),
        b.wf(),
        0 <= i < n <= b.values.len(),
    ensures
        a.merge(
            HistogramView { labels: b.labels, values: b.values.update(i, b.values[i] + x) },
            n,
        ) == a.merge(b, n).plus(b.labels[i], x),
    decreases n,
{
    let raised = HistogramView { labels: b.labels, values: b.values.update(i, b.values[i] + x) };
    merge_grows(a, b, n - 1, n - 1);
    if n == i + 1 {
        merge_prefix(a, raised, b, i);
        plus_twice(a.merge(b, i), b.labels[i], b.values[i], x);
    } else {
        merge_raised(a, b, i, x, n - 1);
        merge_labels(a, b, n - 1, b.labels[i]);
        assert(b.labels.take(n - 1)[i] == b.labels[i]);
        plus_commutes(a.merge(b, n - 1), b.labels[i], x, b.labels[n - 1], b.values[n - 1]);
    }
}

proof fn sum_plus(a: HistogramView, b: HistogramView, label: Seq<char>, x: int)
    requires
        a.wf(),
        b.wf(),
    ensures
        a.sum(b.plus(label, x)) == a.sum(b).plus(label, x),
{
    let n = b.values.len() as int;
    if b.labels.contains(label) {
        let i = first_of(b.labels, label);
        plus_at(b, label, x, i);
        merge_raised(a, b, i, x, n);
    } else {
        merge_prefix(a, b.plus(label, x), b, n);
    }
}

proof fn sum_merge(a: HistogramView, b: HistogramView, c: HistogramView, n: int)
    requires
        a.wf(),
        b.wf(),
        c.wf(),
        0 <= n <= c.values.len(),
    ensures
        a.sum(b.merge(c, n)) == a.sum(b).merge(c, n),
    decreases n,
{
    if n > 0 {
        sum_merge(a, b, c, n - 1);
        merge_grows(b, c, n - 1, n - 1);
        sum_plus(a, b.merge(c, n - 1), c.labels[n - 1], c.values[n - 1]);
    }
}

/// Three histograms have the same sum, in labels and in counts, whether the
/// first two or the last two are added up first.
pub proof fn sum_is_associative(a: HistogramView, b: HistogramView, c: HistogramView)
    requires
        a.wf(),
        b.wf(),
        c.wf(),
    ensures
        a.sum(b).sum(c) == a.sum(b.sum(c)),
{
    sum_merge(a, b, c, c.values.len() as int);
}

/// A count is not above what the histogram holds for its label, and no label has less than
/// nothing.
proof fn count_within_weight(h: HistogramView, label: Seq<char>, i: int)
    requires
        h.wf(),
    ensures
        h.weight(label) >= 0,
        0 <= i < h.values.len() && h.labels[i] == label ==> h.values[i] <= h.weight(label),
{
    count_within_weight_of(h, label, i, h.values.len() as int);
}

proof fn count_within_weight_of(h: HistogramView, label: Seq<char>, i: int, n: int)
    requires
        h.wf(),
        n <= h.values.len(),
    ensures
        h.weight_of(label, n) >= 0,
        0 <= i < n && h.labels[i] == label ==> h.values[i] <= h.weight_of(label, n),
    decreases n,
{
    if n > 0 {
        count_within_weight_of(h, label, i, n - 1);
        assert(0 <= h.values[n - 1]);
    }
}

/// Where no label is twice, the count at a place is what the histogram holds for its label.
pub(crate) proof fn weight_of_distinct(h: HistogramView, i: int)
    requires
        h.wf(),
        h.labels.no_duplicates(),
        0 <= i < h.values.len(),
    ensures
        h.weight(h.labels[i]) == h.values[i],
{
    weight_of_one_place(h, i, h.values.len() as int);
}

proof fn weight_of_one_place(h: HistogramView, i: int, n: int)
    requires
        h.wf(),
        h.labels.no_duplicates(),
        0 <= i < h.values.len(),
        n <= h.values.len(),
    ensures
        h.weight_of(h.labels[i], n) == if i < n {
            h.values[i]
        } else {
            0
        },
    decreases n,
{
    if n > 0 {
        weight_of_one_place(h, i, n - 1);
        assert(n - 1 != i ==> h.labels[n - 1] != h.labels[i]);
    }
}

/// The places of `a` stay in `m`, and the first one of each label takes in what the first
/// `n` places of `b` have for it.
pub open spec fn keeps_places(
    a: HistogramView,
    b: HistogramView,
    n: int,
    m: HistogramView,
) -> bool {
    &&& a.labels.len() <= m.labels.len()
    &&& m.labels.len() == m.values.len()
    &&& forall|i: int| 0 <= i < a.labels.len() ==> #[trigger] m.labels[i] == a.labels[i]
    &&& forall|i: int|
        0 <= i < a.labels.len() ==> #[trigger] m.values[i] == a.values[i] + if stands_before(
            a.labels,
            a.labels[i],
            i,
        ) {
            0
        } else {
            b.weight_of(a.labels[i], n)
        }
}

/// Behind the places of `a` stands in `m` what the first `n` places of `b` have for labels
/// that `a` does not have, each label once.
pub open spec fn adds_places(
    a: HistogramView,
    b: HistogramView,
    n: int,
    m: HistogramView,
) -> bool {
    let len = a.labels.len() as int;
    &&& forall|i: int|
        len <= i < m.labels.len() ==> #[trigger] m.values[i] == b.weight_of(m.labels[i], n)
    &&& forall|i: int|
        len <= i < m.labels.len() ==> !stands_before(m.labels, #[trigger] m.labels[i], i)
    &&& forall|i: int|
        len <= i < m.labels.len() ==> stands_before(b.labels, #[trigger] m.labels[i], n)
    &&& forall|q: int|
        0 <= q < n ==> stands_before(m.labels, #[trigger] b.labels[q], m.labels.len() as int)
}

/// The labels behind those of `a` stand in `m` in the order in which they first stand in `b`.
pub open spec fn keeps_order(
    a: HistogramView,
    b: HistogramView,
    n: int,
    m: HistogramView,
) -> bool {
    forall|i: int, j: int, q: int|
        #![trigger m.labels[i], m.labels[j], b.labels[q]]
        a.labels.len() <= i < j < m.labels.len() && 0 <= q < n && b.labels[q] == m.labels[j]
            ==> stands_before(b.labels, m.labels[i], q)
}

/// `m` is `a` with the first `n` counts of `b` added up label by label. The places of `a`
/// stay, and the first one of each label takes in what `b` has for it. Behind them stands
/// what `b` has for labels that `a` does not have, each one once, in the order in which
/// they first stand in `b`.
pub open spec fn adds_up(a: HistogramView, b: HistogramView, n: int, m: HistogramView) -> bool {
    &&& keeps_places(a, b, n, m)
    &&& adds_places(a, b, n, m)
    &&& keeps_order(a, b, n, m)
}

/// `label` stands in `labels` before the place `q`.
pub open spec fn stands_before(labels: Seq<Seq<char>>, label: Seq<char>, q: int) -> bool {
    exists|p: int| 0 <= p < q && #[trigger] labels[p] == label
}

proof fn step_keeps_places(a: HistogramView, b: HistogramView, n: int, before: HistogramView)
    requires
        a.wf(),
        0 < n,
        before.wf(),
        keeps_places(a, b, n - 1, before),
    ensures
        keeps_places(a, b, n, before.plus(b.labels[n - 1], b.values[n - 1])),
{
    let label = b.labels[n - 1];
    let amount = b.values[n - 1];
    let m = before.plus(label, amount);
    if before.labels.contains(label) {
        let k = first_of(before.labels, label);
        plus_at(before, label, amount, k);
        assert forall|i: int| 0 <= i < a.labels.len() implies #[trigger] m.values[i] == a.values[i]
            + if stands_before(a.labels, a.labels[i], i) {
            0
        } else {
            b.weight_of(a.labels[i], n)
        } by {
            assert(before.labels[i] == a.labels[i]);
            if stands_before(a.labels, a.labels[i], i) {
                let j = choose|j: int| 0 <= j < i && #[trigger] a.labels[j] == a.labels[i];
                assert(before.labels[j] == a.labels[j]);
            } else if a.labels[i] == label && k < i {
                assert(before.labels[k] == a.labels[k]);
            }
        }
    } else {
        assert forall|i: int| 0 <= i < a.labels.len() implies #[trigger] m.values[i] == a.values[i]
            + if stands_before(a.labels, a.labels[i], i) {
            0
        } else {
            b.weight_of(a.labels[i], n)
        } by {
            assert(before.labels[i] == a.labels[i]);
            assert(before.values[i] == m.values[i]);
        }
    }
}

proof fn step_adds_places(a: HistogramView, b: HistogramView, n: int, before: HistogramView)
    requires
        0 < n,
        before.wf(),
        keeps_places(a, b, n - 1, before),
        adds_places(a, b, n - 1, before),
    ensures
        adds_places(a, b, n, before.plus(b.labels[n - 1], b.values[n - 1])),
{
    let len = a.labels.len() as int;
    let label = b.labels[n - 1];
    let amount = b.values[n - 1];
    let m = before.plus(label, amount);
    let end = before.labels.len() as int;
    if before.labels.contains(label) {
        let k = first_of(before.labels, label);
        plus_at(before, label, amount, k);
        assert forall|i: int| len <= i < m.labels.len() implies #[trigger] m.values[i]
            == b.weight_of(m.labels[i], n) by {
            assert(before.values[i] == b.weight_of(before.labels[i], n - 1));
            assert(!stands_before(before.labels, before.labels[i], i));
            if i > k {
                assert(before.labels[k] != before.labels[i]);
            }
        }
        assert(m.labels[k] == label);
    } else {
        assert(m.labels[end] == label);
        assert forall|q: int| 0 <= q < n - 1 implies #[trigger] b.labels[q] != label by {
            assert(stands_before(before.labels, b.labels[q], end));
            let p = choose|p: int| 0 <= p < end && #[trigger] before.labels[p] == b.labels[q];
        }
        no_weight_of_missing(b, label, n - 1);
        assert forall|i: int| len <= i < m.labels.len() implies #[trigger] m.values[i]
            == b.weight_of(m.labels[i], n) by {
            if i < end {
                assert(before.values[i] == b.weight_of(before.labels[i], n - 1));
                assert(before.labels[i] == m.labels[i]);
            }
        }
    }
    assert forall|i: int| len <= i < m.labels.len() implies !stands_before(
        m.labels,
        #[trigger] m.labels[i],
        i,
    ) by {
        if i < end {
            assert(before.labels[i] == m.labels[i]);
            assert(!stands_before(before.labels, before.labels[i], i));
            assert forall|p: int| 0 <= p < i implies #[trigger] m.labels[p] != m.labels[i] by {
                assert(before.labels[p] == m.labels[p]);
            }
        } else {
            assert forall|p: int| 0 <= p < i implies #[trigger] m.labels[p] != m.labels[i] by {
                assert(before.labels[p] == m.labels[p]);
            }
        }
    }
    assert forall|i: int| len <= i < m.labels.len() implies stands_before(
        b.labels,
        #[trigger] m.labels[i],
        n,
    ) by {
        if i < end {
            assert(stands_before(b.labels, before.labels[i], n - 1));
            let p = choose|p: int| 0 <= p < n - 1 && #[trigger] b.labels[p] == before.labels[i];
            assert(b.labels[p] == m.labels[i]);
        } else {
            assert(b.labels[n - 1] == m.labels[i]);
        }
    }
    assert forall|q: int| 0 <= q < n implies stands_before(
        m.labels,
        #[trigger] b.labels[q],
        m.labels.len() as int,
    ) by {
        if q < n - 1 {
            assert(stands_before(before.labels, b.labels[q], end));
            let p = choose|p: int| 0 <= p < end && #[trigger] before.labels[p] == b.labels[q];
            assert(m.labels[p] == b.labels[q]);
        } else if before.labels.contains(label) {
            let k = first_of(before.labels, label);
            assert(m.labels[k] == label);
        } else {
            assert(m.labels[end] == label);
        }
    }
}

proof fn step_keeps_order(a: HistogramView, b: HistogramView, n: int, before: HistogramView)
    requires
        0 < n,
        before.wf(),
        adds_places(a, b, n - 1, before),
        keeps_order(a, b, n - 1, before),
    ensures
        keeps_order(a, b, n, before.plus(b.labels[n - 1], b.values[n - 1])),
{
    let label = b.labels[n - 1];
    let amount = b.values[n - 1];
    let m = before.plus(label, amount);
    let end = before.labels.len() as int;
    assert forall|i: int, j: int, q: int|
        #![trigger m.labels[i], m.labels[j], b.labels[q]]
        a.labels.len() <= i < j < m.labels.len() && 0 <= q < n && b.labels[q]
            == m.labels[j] implies stands_before(b.labels, m.labels[i], q) by {
        let x = m.labels[i];
        let y = m.labels[j];
        assert(before.labels[i] == x);
        if j < end {
            assert(before.labels[j] == y);
            if q == n - 1 {
                assert(stands_before(b.labels, before.labels[j], n - 1));
                let e = choose|e: int| 0 <= e < n - 1 && #[trigger] b.labels[e] == y;
                assert(stands_before(b.labels, before.labels[i], e));
                let p = choose|p: int| 0 <= p < e && #[trigger] b.labels[p] == x;
                assert(b.labels[p] == x && p < q);
            }
        } else {
            if q < n - 1 {
                assert(stands_before(before.labels, b.labels[q], end));
                let p = choose|p: int| 0 <= p < end && #[trigger] before.labels[p] == b.labels[q];
                assert(before.labels.contains(label));
            }
            assert(stands_before(b.labels, before.labels[i], n - 1));
        }
    }
}

pub(crate) proof fn merge_adds_up(a: HistogramView, b: HistogramView, n: int)
    requires
        a.wf(),
        b.wf(),
        0 <= n <= b.values.len(),
    ensures
        adds_up(a, b, n, a.merge(b, n)),
    decreases n,
{
    if n > 0 {
        merge_adds_up(a, b, n - 1);
        merge_grows(a, b, n - 1, n - 1);
        let before = a.merge(b, n - 1);
        step_keeps_places(a, b, n, before);
        step_adds_places(a, b, n, before);
        step_keeps_order(a, b, n, before);
    } else {
        assert(a.merge(b, n) == a);
    }
}

proof fn no_weight_of_missing(h: HistogramView, label: Seq<char>, n: int)
    requires
        forall|q: int| 0 <= q < n ==> #[trigger] h.labels[q] != label,
    ensures
        h.weight_of(label, n) == 0,
    decreases n,
{
    if n > 0 {
        no_weight_of_missing(h, label, n - 1);
        assert(h.labels[n - 1] != label);
    }
}

/// `sum_hist` adds up label by label, place by place.
pub proof fn sum_hist_adds_up(a: MetricHistogram, b: MetricHistogram, r: MetricHistogram)
    requires
        a.wf(),
        b.wf(),
        call_ensures(sum_hist, (&a, &b), r),
    ensures
        adds_up(a@, b@, b@.values.len() as int, r@),
{
    merge_adds_up(a@, b@, b@.values.len() as int);
}

/// `checked_sum_hist` adds up as `sum_hist` does. It gives nothing only where the sum has a
/// count that does not fit in 64 bits.
pub proof fn checked_sum_hist_adds_up(
    a: MetricHistogram,
    b: MetricHistogram,
    r: Option<MetricHistogram>,
)
    requires
        a.wf(),
        b.wf(),
        call_ensures(checked_sum_hist, (&a, &b), r),
    ensures
        match r {
            Some(h) => adds_up(a@, b@, b@.values.len() as int, h@),
            None => exists|all: HistogramView, i: int|
                adds_up(a@, b@, b@.values.len() as int, all) && 0 <= i < all.values.len()
                    && #[trigger] all.values[i] > u64::MAX,
        },
{
    merge_adds_up(a@, b@, b@.values.len() as int);
    if r is None {
        let all = a@.sum(b@);
        let i = choose|i: int| 0 <= i < all.values.len() && #[trigger] all.values[i] > u64::MAX;
        assert(all.values[i] > u64::MAX);
    }
}

/// `zero_div_hist` keeps the labels and gives each count the largest number that, taken as
/// often as the divisor says, does not go over it; and zero where the divisor is.
pub proof fn zero_div_hist_divides_each_count(a: MetricHistogram, b: u64, r: MetricHistogram)
    requires
        call_ensures(zero_div_hist, (&a, b), r),
    ensures
        r.labels@ == a.labels@,
        r.values@.len() == a.values@.len(),
        forall|i: int|
            0 <= i < a.values@.len() ==> {
                let x = #[trigger] r.values@[i];
                &&& b > 0 ==> x * b <= a.values@[i] < (x + 1) * b
                &&& b == 0 ==> x == 0
            },
{
    assert(r@.values.len() == a@.values.len());
    assert forall|i: int| 0 <= i < a.values@.len() implies {
        let x = #[trigger] r.values@[i];
        &&& b > 0 ==> x * b <= a.values@[i] < (x + 1) * b
        &&& b == 0 ==> x == 0
    } by {
        let x = r.values@[i] as int;
        let y = a.values@[i] as int;
        let d = b as int;
        assert(r@.values[i] == x && a@.values[i] == y);
        if b > 0 {
            assert(x == y / d);
            assert(x * d <= y && y < (x + 1) * d) by (nonlinear_arith)
                requires
                    x == y / d,
                    d > 0,
            ;
        }
    }
}

/// `checked_count` adds each event to the count at its place, and keeps the labels; where
/// nothing was counted yet, the events give the labels and the first counts. It gives
/// nothing only where there is not one event for each place or a count would not fit.
pub proof fn checked_count_adds_at_each_place(
    h: MetricHistogram,
    events: Vec<(String, i64)>,
    r: Option<MetricHistogram>,
)
    requires
        h.wf(),
        call_ensures(checked_count, (&h, &events), r),
    ensures
        match r {
            Some(s) => {
                &&& h.values@.len() > 0 ==> h.values@.len() == events@.len()
                &&& s.labels@.len() == events@.len()
                &&& s.values@.len() == events@.len()
                &&& forall|i: int|
                    0 <= i < events@.len() ==> (#[trigger] s.labels@[i])@ == if h.values@.len() > 0 {
                        h.labels@[i]@
                    } else {
                        events@[i].0@
                    }
                &&& forall|i: int|
                    0 <= i < events@.len() ==> #[trigger] s.values@[i] == (events@[i].1 as u64)
                        + if h.values@.len() > 0 {
                        h.values@[i] as int
                    } else {
                        0
                    }
            },
            None => {
                &&& h.values@.len() > 0
                &&& h.values@.len() == events@.len() ==> exists|i: int|
                    0 <= i < events@.len() && #[trigger] h.values@[i] + (events@[i].1 as u64)
                        > u64::MAX
            },
        },
{
    let want = h@.counted(events@);
    assert(h@.values.len() == h.values@.len());
    match r {
        Some(s) => {
            assert(s@.labels.len() == s.labels@.len() && s@.values.len() == s.values@.len());
            assert forall|i: int| 0 <= i < events@.len() implies (#[trigger] s.labels@[i])@
                == if h.values@.len() > 0 {
                h.labels@[i]@
            } else {
                events@[i].0@
            } by {
                assert(s@.labels[i] == s.labels@[i]@);
                if h.values@.len() > 0 {
                    assert(h@.labels[i] == h.labels@[i]@);
                }
            }
            assert forall|i: int| 0 <= i < events@.len() implies #[trigger] s.values@[i] == (
            events@[i].1 as u64) + if h.values@.len() > 0 {
                h.values@[i] as int
            } else {
                0
            } by {
                assert(s@.values[i] == s.values@[i]);
                if h.values@.len() > 0 {
                    assert(h@.values[i] == h.values@[i]);
                }
            }
        },
        None => {
            if h@.takes(events@) {
                let i = choose|i: int|
                    0 <= i < want.values.len() && #[trigger] want.values[i] > u64::MAX;
                if h.values@.len() > 0 {
                    assert(h@.values[i] == h.values@[i]);
                    assert(h.values@[i] + (events@[i].1 as u64) > u64::MAX);
                }
            }
        },
    }
}

/// What the lists that reach to place `i` hold there in all, each number read as unsigned.
pub open spec fn place_total(lists: Seq<Seq<(String, i64)>>, i: int) -> int {
    int_total(
        lists,
        |l: Seq<(String, i64)>|
            if 0 <= i < l.len() {
                l[i].1 as u64 as int
            } else {
                0
            },
    )
}

/// The list at `k` is the first one that is not empty.
pub open spec fn first_filled(lists: Seq<Seq<(String, i64)>>, k: int) -> bool {
    &&& 0 <= k < lists.len()
    &&& lists[k].len() > 0
    &&& forall|j: int| 0 <= j < k ==> (#[trigger] lists[j]).len() == 0
}

/// `h` counts the events of all of `lists`: place by place, under the labels of the first
/// list that is not empty.
pub open spec fn tallies(lists: Seq<Seq<(String, i64)>>, h: HistogramView) -> bool {
    &&& h.labels.len() == h.values.len()
    &&& h.values.len() > 0 ==> exists|k: int| #[trigger] first_filled(lists, k)
    &&& forall|k: int|
        0 <= k < lists.len() && (#[trigger] lists[k]).len() > 0 ==> lists[k].len() == h.values.len()
    &&& forall|k: int, i: int|
        #[trigger] first_filled(lists, k) && 0 <= i < h.labels.len() ==> #[trigger] h.labels[i]
            == lists[k][i].0@
    &&& forall|i: int|
        0 <= i < h.values.len() ==> #[trigger] h.values[i] == place_total(lists, i)
}

/// Behind a list that is not empty, all lists are as long as it, and no place holds more
/// than fits in 64 bits.
pub open spec fn can_be_tallied(lists: Seq<Seq<(String, i64)>>) -> bool {
    &&& forall|j: int, k: int|
        0 <= j < k < lists.len() && (#[trigger] lists[j]).len() > 0 ==> (#[trigger] lists[k]).len()
            == lists[j].len()
    &&& forall|i: int| #[trigger] place_total(lists, i) <= u64::MAX
}

proof fn place_total_step(lists: Seq<Seq<(String, i64)>>, i: int)
    requires
        lists.len() > 0,
    ensures
        place_total(lists, i) == place_total(lists.drop_last(), i) + if 0 <= i
            < lists.last().len() {
            lists.last()[i].1 as u64 as int
        } else {
            0
        },
        place_total(lists.drop_last(), i) <= place_total(lists, i),
{
}

proof fn nothing_beyond(lists: Seq<Seq<(String, i64)>>, i: int)
    requires
        forall|k: int| 0 <= k < lists.len() ==> !(0 <= i < (#[trigger] lists[k]).len()),
    ensures
        place_total(lists, i) == 0,
    decreases lists.len(),
{
    if lists.len() > 0 {
        let before = lists.drop_last();
        assert forall|k: int| 0 <= k < before.len() implies !(0 <= i < (
        #[trigger] before[k]).len()) by {
            assert(before[k] == lists[k]);
        }
        assert(lists[lists.len() - 1] == lists.last());
        nothing_beyond(before, i);
        place_total_step(lists, i);
    }
}

proof fn first_filled_push(lists: Seq<Seq<(String, i64)>>, k: int)
    requires
        lists.len() > 0,
        k < lists.len() - 1,
    ensures
        first_filled(lists, k) <==> first_filled(lists.drop_last(), k),
{
    let before = lists.drop_last();
    if first_filled(lists, k) {
        assert forall|j: int| 0 <= j < k implies (#[trigger] before[j]).len() == 0 by {
            assert(before[j] == lists[j]);
        }
    }
    if first_filled(before, k) {
        assert forall|j: int| 0 <= j < k implies (#[trigger] lists[j]).len() == 0 by {
            assert(before[j] == lists[j]);
        }
    }
}

proof fn counting_tallies(lists: Seq<Seq<(String, i64)>>)
    requires
        countable(lists),
    ensures
        tallies(lists, count_all(lists)),
        can_be_tallied(lists),
    decreases lists.len(),
{
    let h = count_all(lists);
    if lists.len() == 0 {
        assert forall|i: int| #[trigger] place_total(lists, i) <= u64::MAX by {}
    } else {
        let before = lists.drop_last();
        let events = lists.last();
        let g = count_all(before);
        let end = lists.len() - 1;
        counting_tallies(before);
        assert(lists[end] == events);
        assert forall|k: int| 0 <= k < end implies #[trigger] lists[k] == before[k] by {}
        if g.values.len() == 0 {
            assert forall|k: int| 0 <= k < end implies (#[trigger] lists[k]).len() == 0 by {
                assert(before[k].len() == 0 || before[k].len() == g.values.len());
            }
            if events.len() > 0 {
                assert(first_filled(lists, end));
            }
            assert forall|i: int| 0 <= i < h.values.len() implies #[trigger] h.values[i]
                == place_total(lists, i) by {
                place_total_step(lists, i);
                assert forall|k: int| 0 <= k < before.len() implies !(0 <= i < (
                #[trigger] before[k]).len()) by {
                    assert(before[k] == lists[k]);
                }
                nothing_beyond(before, i);
            }
        } else {
            let k = choose|k: int| #[trigger] first_filled(before, k);
            first_filled_push(lists, k);
            assert(first_filled(lists, k));
            assert(events.len() == g.values.len());
            assert forall|i: int| 0 <= i < h.values.len() implies #[trigger] h.values[i]
                == place_total(lists, i) by {
                place_total_step(lists, i);
                assert(g.values[i] == place_total(before, i));
            }
        }
        assert forall|k: int, i: int| #[trigger]
            first_filled(lists, k) && 0 <= i < h.labels.len() implies #[trigger] h.labels[i]
            == lists[k][i].0@ by {
            if k < end {
                first_filled_push(lists, k);
                assert(first_filled(before, k));
                assert(before[k].len() == g.values.len());
                assert(g.labels[i] == before[k][i].0@);
            } else if g.values.len() > 0 {
                let j = choose|j: int| #[trigger] first_filled(before, j);
                assert(lists[j].len() > 0);
            }
        }
        assert forall|k: int|
            0 <= k < lists.len() && (#[trigger] lists[k]).len() > 0 implies lists[k].len()
            == h.values.len() by {
            if k < end {
                assert(before[k].len() > 0);
            }
        }
        assert forall|i: int| #[trigger] place_total(lists, i) <= u64::MAX by {
            if 0 <= i < h.values.len() {
                assert(h.values[i] <= u64::MAX);
            } else {
                assert forall|k: int| 0 <= k < lists.len() implies !(0 <= i < (
                #[trigger] lists[k]).len()) by {}
                nothing_beyond(lists, i);
            }
        }
        assert forall|j: int, k: int|
            0 <= j < k < lists.len() && (#[trigger] lists[j]).len() > 0 implies (
        #[trigger] lists[k]).len() == lists[j].len() by {
            if countable(lists) && lists[k].len() != lists[j].len() {
                unequal_lists_are_not_countable(lists, j, k);
            }
        }
    }
}

proof fn tallying_counts(lists: Seq<Seq<(String, i64)>>)
    requires
        can_be_tallied(lists),
    ensures
        countable(lists),
    decreases lists.len(),
{
    if lists.len() > 0 {
        let before = lists.drop_last();
        let events = lists.last();
        let end = lists.len() - 1;
        assert forall|j: int, k: int|
            0 <= j < k < before.len() && (#[trigger] before[j]).len() > 0 implies (
        #[trigger] before[k]).len() == before[j].len() by {
            assert(before[j] == lists[j] && before[k] == lists[k]);
        }
        assert forall|i: int| #[trigger] place_total(before, i) <= u64::MAX by {
            place_total_step(lists, i);
            assert(place_total(lists, i) <= u64::MAX);
        }
        tallying_counts(before);
        counting_tallies(before);
        let g = count_all(before);
        let h = count_all(lists);
        if g.values.len() > 0 {
            let k = choose|k: int| #[trigger] first_filled(before, k);
            assert(lists[k] == before[k]);
            assert(lists[end] == events);
            assert(lists[end].len() == lists[k].len());
        }
        assert(g.takes(events));
        assert forall|i: int| 0 <= i < h.values.len() implies #[trigger] h.values[i]
            <= u64::MAX by {
            place_total_step(lists, i);
            assert(place_total(lists, i) <= u64::MAX);
            if g.values.len() > 0 {
                assert(g.values[i] == place_total(before, i));
            }
        }
    }
}

/// Lists of events are counted in one after the other exactly where all behind one that is
/// not empty are as long as it, and what is at a place fits in 64 bits; and then each place
/// has what all lists hold there.
pub proof fn lists_are_tallied(lists: Seq<Seq<(String, i64)>>)
    ensures
        countable(lists) <==> can_be_tallied(lists),
        countable(lists) ==> tallies(lists, count_all(lists)),
{
    if countable(lists) {
        counting_tallies(lists);
    }
    if can_be_tallied(lists) {
        tallying_counts(lists);
    }
}

/// The sums of histograms and their means are defined on all that have a count for each
/// label; `sum_hist` alone needs that the counts of the sum fit.
pub proof fn histograms_can_be_added(a: MetricHistogram, b: MetricHistogram, events: Vec<(String, i64)>)
    requires
        a.labels@.len() == a.values@.len(),
        b.labels@.len() == b.values@.len(),
    ensures
        call_requires(checked_sum_hist, (&a, &b)),
        call_requires(checked_count, (&a, &events)),
        (forall|label: Seq<char>| #[trigger] a@.weight(label) + b@.weight(label) <= u64::MAX)
            ==> call_requires(sum_hist, (&a, &b)),
        forall|d: u64| #[trigger] call_requires(zero_div_hist, (&a, d)),
{
    if forall|label: Seq<char>| #[trigger] a@.weight(label) + b@.weight(label) <= u64::MAX {
        let all = a@.sum(b@);
        sum_keeps_labels(a@, b@);
        assert forall|i: int| 0 <= i < all.values.len() implies #[trigger] all.values[i]
            <= u64::MAX by {
            let label = all.labels[i];
            sum_adds_weights(a@, b@, label);
            count_within_weight(all, label, i);
            assert(a@.weight(label) + b@.weight(label) <= u64::MAX);
        }
    }
}

/// A new histogram is empty, and the copy of one holds the same labels and the same counts.
pub proof fn copies_hold_the_same(h: MetricHistogram, r: MetricHistogram, empty: MetricHistogram)
    requires
        call_ensures(<MetricHistogram as Clone>::clone, (&h,), r),
        call_ensures(<MetricHistogram as Default>::default, (), empty),
    ensures
        r.labels@ == h.labels@,
        r.values@ == h.values@,
        empty.labels@.len() == 0,
        empty.values@.len() == 0,
{
}

} // verus!
