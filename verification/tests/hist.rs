use macmon::histogram::{checked_count, checked_sum_hist, sum_hist, zero_div_hist};
use macmon::MetricHistogram;

fn hist(labels: &[&str], values: &[u64]) -> MetricHistogram {
    MetricHistogram {
        labels: labels.iter().map(|l| l.to_string()).collect(),
        values: values.to_vec(),
    }
}

fn events(items: &[(&str, i64)]) -> Vec<(String, i64)> {
    items.iter().map(|e| (e.0.to_string(), e.1)).collect()
}

fn weight(h: &MetricHistogram, label: &str) -> u64 {
    (0..h.values.len()).filter(|&i| h.labels[i] == label).map(|i| h.values[i]).sum()
}

#[test]
fn sum_adds_known_labels_and_appends_new_ones() {
    let r = sum_hist(&hist(&["a", "b"], &[1, 2]), &hist(&["c", "b"], &[10, 20]));
    assert_eq!(r.labels, vec!["a", "b", "c"]);
    assert_eq!(r.values, vec![1, 22, 10]);
}

#[test]
fn sum_adds_a_repeated_label_at_its_first_place() {
    let r = sum_hist(&hist(&["a", "a"], &[1, 2]), &hist(&["a", "b", "b"], &[5, 6, 7]));
    assert_eq!(r.labels, vec!["a", "a", "b"]);
    assert_eq!(r.values, vec![6, 2, 13]);
}

#[test]
fn sum_keeps_the_weight_of_every_label() {
    let a = hist(&["a", "b", "a"], &[1, 2, 3]);
    let b = hist(&["b", "c"], &[10, 20]);
    for (x, y) in [(&a, &b), (&b, &a)] {
        let r = sum_hist(x, y);
        for label in ["a", "b", "c", "d"] {
            assert_eq!(weight(&r, label), weight(&a, label) + weight(&b, label));
        }
    }
}

#[test]
fn sum_with_the_empty_histogram_changes_nothing() {
    let h = hist(&["a", "b"], &[1, 2]);
    for r in [sum_hist(&h, &MetricHistogram::default()), sum_hist(&MetricHistogram::default(), &h)] {
        assert_eq!(r.labels, h.labels);
        assert_eq!(r.values, h.values);
    }
}

#[test]
fn checked_sum_gives_nothing_on_overflow() {
    let a = hist(&["a"], &[u64::MAX]);
    assert!(checked_sum_hist(&a, &hist(&["a"], &[1])).is_none());
    let r = checked_sum_hist(&a, &hist(&["b"], &[1])).unwrap();
    assert_eq!(r.values, vec![u64::MAX, 1]);
}

#[test]
fn division_keeps_labels_and_rounds_down() {
    let r = zero_div_hist(&hist(&["a", "b"], &[7, 8]), 4);
    assert_eq!(r.labels, vec!["a", "b"]);
    assert_eq!(r.values, vec![1, 2]);
}

#[test]
fn division_by_zero_clears_the_counts() {
    let r = zero_div_hist(&hist(&["a", "b"], &[7, 8]), 0);
    assert_eq!(r.labels, vec!["a", "b"]);
    assert_eq!(r.values, vec![0, 0]);
}

#[test]
fn mean_of_equal_histograms_is_the_histogram() {
    let h = hist(&["a", "b"], &[7, 8]);
    let mut sum = h.clone();
    for _ in 0..3 {
        sum = sum_hist(&sum, &h);
    }
    assert_eq!(sum.values, vec![28, 32]);
    let r = zero_div_hist(&sum, 4);
    assert_eq!(r.labels, h.labels);
    assert_eq!(r.values, h.values);
}

#[test]
fn mean_of_equal_histograms_with_a_repeated_label_moves_counts() {
    let h = hist(&["a", "a"], &[4, 4]);
    let r = zero_div_hist(&sum_hist(&h, &h), 2);
    assert_eq!(r.values, vec![6, 2]);
}

#[test]
fn counting_takes_labels_from_the_first_events() {
    let h = checked_count(&MetricHistogram::default(), &events(&[("x", 3), ("y", 4)])).unwrap();
    let h = checked_count(&h, &events(&[("p", 10), ("q", 20)])).unwrap();
    assert_eq!(h.labels, vec!["x", "y"]);
    assert_eq!(h.values, vec![13, 24]);
}

#[test]
fn counting_needs_one_event_for_each_place() {
    let h = hist(&["x", "y"], &[1, 2]);
    assert!(checked_count(&h, &events(&[("x", 1)])).is_none());
    assert!(checked_count(&h, &events(&[])).is_none());
    assert!(checked_count(&MetricHistogram::default(), &events(&[])).unwrap().values.is_empty());
}

#[test]
fn counting_reads_negative_numbers_as_unsigned() {
    let h = checked_count(&MetricHistogram::default(), &events(&[("x", -1)])).unwrap();
    assert_eq!(h.values, vec![u64::MAX]);
    assert!(checked_count(&h, &events(&[("x", 1)])).is_none());
}

#[test]
fn three_histograms_are_added_up_in_either_grouping() {
    let a = hist(&["a", "b", "a"], &[1, 2, 3]);
    let b = hist(&["c", "b", "c"], &[10, 20, 30]);
    let c = hist(&["d", "c", "a"], &[100, 200, 300]);
    let left = sum_hist(&sum_hist(&a, &b), &c);
    let right = sum_hist(&a, &sum_hist(&b, &c));
    assert_eq!(left.labels, vec!["a", "b", "a", "c", "d"]);
    assert_eq!(left.values, vec![301, 22, 3, 240, 100]);
    assert_eq!(right.labels, left.labels);
    assert_eq!(right.values, left.values);
}
