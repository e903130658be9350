use std::collections::HashMap;

use openmetrics_parser::{Exemplar, MetricNumber, SummaryValue};
use prom_aggregation::aggregator::Aggregator;
use prom_aggregation::buckets::{merge_buckets, order_key};
use prom_aggregation::clear_mode::ClearMode;
use prom_aggregation::error::AggregationError;
use prom_aggregation::family::AggregationFamily;
use prom_aggregation::labels::{same_label_set, strip_clearmode, Label};
use prom_aggregation::merge::merge_metric;
use prom_aggregation::model::{
    Bucket, CounterValue, HistogramValue, MetricFamily, MetricType, Sample, Value,
};

fn labels(pairs: &[(&str, &str)]) -> Vec<Label> {
    pairs
        .iter()
        .map(|(n, v)| Label { name: n.to_string(), value: v.to_string() })
        .collect()
}

fn sample(pairs: &[(&str, &str)], value: Value) -> Sample {
    Sample { labels: labels(pairs), timestamp_bits: None, value }
}

fn family(name: &str, family_type: MetricType, samples: Vec<Sample>) -> MetricFamily {
    MetricFamily {
        name: name.to_string(),
        family_type,
        help: String::new(),
        unit: String::new(),
        samples,
    }
}

fn bucket(bound: f64, count: i64) -> Bucket {
    Bucket { count: MetricNumber::Int(count), upper_bound_bits: bound.to_bits(), exemplar: None }
}

fn histogram(buckets: Vec<Bucket>) -> Value {
    Value::Histogram(HistogramValue {
        sum: Some(MetricNumber::Int(10)),
        count: Some(3),
        created_bits: None,
        buckets,
    })
}

fn exemplar(id: f64) -> Exemplar {
    Exemplar::new(HashMap::new(), id, None)
}

fn bucket_view(b: &[Bucket]) -> Vec<(f64, MetricNumber)> {
    b.iter().map(|x| (f64::from_bits(x.upper_bound_bits), x.count)).collect()
}

fn label_strings(s: &Sample) -> Vec<(String, String)> {
    s.labels.iter().map(|l| (l.name.clone(), l.value.clone())).collect()
}

#[test]
fn gauge_replace_takes_incoming() {
    let mut stored = sample(&[], Value::Gauge(MetricNumber::Int(5)));
    let incoming = sample(&[], Value::Gauge(MetricNumber::Float(7.25)));
    assert_eq!(merge_metric(&mut stored, incoming, ClearMode::Replace), Ok(()));
    assert!(matches!(stored.value, Value::Gauge(MetricNumber::Float(v)) if v == 7.25));
}

#[test]
fn gauge_aggregate_adds_floats() {
    let mut stored = sample(&[], Value::Gauge(MetricNumber::Float(1.5)));
    let incoming = sample(&[], Value::Gauge(MetricNumber::Float(2.0)));
    assert_eq!(merge_metric(&mut stored, incoming, ClearMode::Aggregate), Ok(()));
    assert!(matches!(stored.value, Value::Gauge(MetricNumber::Float(v)) if v == 3.5));
}

#[test]
fn unknown_aggregate_adds_int_and_float() {
    let mut stored = sample(&[], Value::Unknown(MetricNumber::Int(2)));
    let incoming = sample(&[], Value::Unknown(MetricNumber::Float(0.5)));
    assert_eq!(merge_metric(&mut stored, incoming, ClearMode::Aggregate), Ok(()));
    assert!(matches!(stored.value, Value::Unknown(MetricNumber::Float(v)) if v == 2.5));
}

#[test]
fn integer_sum_wraps_around() {
    let mut stored = sample(&[], Value::Unknown(MetricNumber::Int(i64::MAX)));
    let incoming = sample(&[], Value::Unknown(MetricNumber::Int(1)));
    assert_eq!(merge_metric(&mut stored, incoming, ClearMode::Aggregate), Ok(()));
    assert!(matches!(stored.value, Value::Unknown(MetricNumber::Int(i64::MIN))));
}

#[test]
fn counter_aggregate_sums_and_takes_incoming_exemplar() {
    let mut stored = sample(
        &[],
        Value::Counter(CounterValue { value: MetricNumber::Int(4), exemplar: Some(exemplar(1.0)) }),
    );
    let incoming = sample(
        &[],
        Value::Counter(CounterValue { value: MetricNumber::Int(6), exemplar: Some(exemplar(2.0)) }),
    );
    assert_eq!(merge_metric(&mut stored, incoming, ClearMode::Aggregate), Ok(()));
    match stored.value {
        Value::Counter(c) => {
            assert_eq!(c.value, MetricNumber::Int(10));
            assert_eq!(c.exemplar, Some(exemplar(2.0)));
        }
        _ => panic!("not a counter"),
    }
}

#[test]
fn counter_replace_takes_incoming_exemplar_even_when_absent() {
    let mut stored = sample(
        &[],
        Value::Counter(CounterValue { value: MetricNumber::Int(4), exemplar: Some(exemplar(1.0)) }),
    );
    let incoming =
        sample(&[], Value::Counter(CounterValue { value: MetricNumber::Int(6), exemplar: None }));
    assert_eq!(merge_metric(&mut stored, incoming, ClearMode::Replace), Ok(()));
    match stored.value {
        Value::Counter(c) => {
            assert_eq!(c.value, MetricNumber::Int(6));
            assert_eq!(c.exemplar, None);
        }
        _ => panic!("not a counter"),
    }
}

#[test]
fn histogram_sum_and_count_need_both_sides() {
    let mut stored = sample(
        &[],
        Value::Histogram(HistogramValue {
            sum: Some(MetricNumber::Int(1)),
            count: None,
            created_bits: Some(1.0f64.to_bits()),
            buckets: vec![bucket(1.0, 1)],
        }),
    );
    let incoming = sample(
        &[],
        Value::Histogram(HistogramValue {
            sum: Some(MetricNumber::Int(2)),
            count: Some(5),
            created_bits: Some(9.0f64.to_bits()),
            buckets: vec![bucket(1.0, 2), bucket(f64::INFINITY, 3)],
        }),
    );
    assert_eq!(merge_metric(&mut stored, incoming, ClearMode::Aggregate), Ok(()));
    match stored.value {
        Value::Histogram(h) => {
            assert_eq!(h.sum, Some(MetricNumber::Int(3)));
            assert_eq!(h.count, None);
            assert_eq!(h.created_bits, Some(9.0f64.to_bits()));
            assert_eq!(
                bucket_view(&h.buckets),
                vec![(1.0, MetricNumber::Int(3)), (f64::INFINITY, MetricNumber::Int(3))]
            );
        }
        _ => panic!("not a histogram"),
    }
}

#[test]
fn histogram_replace_takes_incoming_buckets() {
    let mut stored = sample(&[], histogram(vec![bucket(1.0, 1), bucket(2.0, 2)]));
    let incoming = sample(&[], histogram(vec![bucket(5.0, 7)]));
    assert_eq!(merge_metric(&mut stored, incoming, ClearMode::Replace), Ok(()));
    match stored.value {
        Value::Histogram(h) => {
            assert_eq!(h.sum, Some(MetricNumber::Int(10)));
            assert_eq!(h.count, Some(3));
            assert_eq!(bucket_view(&h.buckets), vec![(5.0, MetricNumber::Int(7))]);
        }
        _ => panic!("not a histogram"),
    }
}

#[test]
fn mismatched_value_kinds_are_reported() {
    let mut stored = sample(&[], Value::Gauge(MetricNumber::Int(5)));
    let incoming =
        sample(&[], Value::Counter(CounterValue { value: MetricNumber::Int(1), exemplar: None }));
    assert_eq!(
        merge_metric(&mut stored, incoming, ClearMode::Aggregate),
        Err(AggregationError::ValueTypeMismatch)
    );
    assert!(matches!(stored.value, Value::Gauge(MetricNumber::Int(5))));
}

#[test]
fn summary_merge_is_refused() {
    let summary = || {
        Value::Summary(SummaryValue { sum: None, count: None, created: None, quantiles: vec![] })
    };
    let mut stored = sample(&[], summary());
    assert_eq!(
        merge_metric(&mut stored, sample(&[], summary()), ClearMode::Aggregate),
        Err(AggregationError::UnsupportedMerge)
    );
}

#[test]
fn buckets_merge_sorted_with_equal_bounds_summed() {
    let a = vec![bucket(1.0, 1), bucket(5.0, 2), bucket(f64::INFINITY, 4)];
    let b = vec![bucket(2.0, 10), bucket(5.0, 20), bucket(f64::INFINITY, 40)];
    let merged = merge_buckets(a, b);
    assert_eq!(
        bucket_view(&merged),
        vec![
            (1.0, MetricNumber::Int(1)),
            (2.0, MetricNumber::Int(10)),
            (5.0, MetricNumber::Int(22)),
            (f64::INFINITY, MetricNumber::Int(44)),
        ]
    );
}

#[test]
fn bucket_merge_drains_the_longer_second_list() {
    let a = vec![bucket(1.0, 1)];
    let b = vec![bucket(1.0, 2), bucket(2.0, 3), bucket(3.0, 4)];
    let merged = merge_buckets(a, b);
    assert_eq!(
        bucket_view(&merged),
        vec![(1.0, MetricNumber::Int(3)), (2.0, MetricNumber::Int(3)), (3.0, MetricNumber::Int(4))]
    );
}

#[test]
fn bucket_merge_with_an_empty_side() {
    let merged = merge_buckets(vec![], vec![bucket(0.5, 1)]);
    assert_eq!(bucket_view(&merged), vec![(0.5, MetricNumber::Int(1))]);
    let merged = merge_buckets(vec![bucket(0.5, 1)], vec![]);
    assert_eq!(bucket_view(&merged), vec![(0.5, MetricNumber::Int(1))]);
}

#[test]
fn bucket_merge_takes_exemplar_of_second() {
    let mut a = bucket(1.0, 1);
    a.exemplar = Some(exemplar(1.0));
    let mut b = bucket(1.0, 1);
    b.exemplar = Some(exemplar(2.0));
    let merged = merge_buckets(vec![a], vec![b]);
    assert_eq!(merged[0].exemplar, Some(exemplar(2.0)));
}

#[test]
fn order_key_follows_numeric_order() {
    let keys: Vec<u64> = [f64::NEG_INFINITY, -2.5, -1.0, 0.0, 0.25, 1.0, 1e300, f64::INFINITY]
        .iter()
        .map(|f| order_key(f.to_bits()))
        .collect();
    for w in keys.windows(2) {
        assert!(w[0] < w[1]);
    }
    assert_eq!(order_key((-0.0f64).to_bits()), order_key(0.0f64.to_bits()));
}

#[test]
fn clearmode_label_selects_mode() {
    let ls = labels(&[("a", "1"), ("clearmode", "aggregate")]);
    assert_eq!(ClearMode::from_labels(MetricType::Gauge, &ls), ClearMode::Aggregate);
    let ls = labels(&[("clearmode", "replace")]);
    assert_eq!(ClearMode::from_labels(MetricType::Counter, &ls), ClearMode::Replace);
    let ls = labels(&[("clearmode", "family")]);
    assert_eq!(ClearMode::from_labels(MetricType::Histogram, &ls), ClearMode::Family);
}

#[test]
fn type_defaults_apply_without_label() {
    let ls = labels(&[("a", "1")]);
    assert_eq!(ClearMode::from_labels(MetricType::Gauge, &ls), ClearMode::Replace);
    assert_eq!(ClearMode::from_labels(MetricType::Counter, &ls), ClearMode::Aggregate);
    assert_eq!(ClearMode::from_labels(MetricType::Histogram, &ls), ClearMode::Aggregate);
    assert_eq!(ClearMode::from_labels(MetricType::Summary, &ls), ClearMode::Aggregate);
    assert_eq!(ClearMode::from_labels(MetricType::Unknown, &ls), ClearMode::Aggregate);
}

#[test]
fn bogus_clearmode_falls_back_to_default() {
    let bogus = labels(&[("clearmode", "bogus")]);
    let none = labels(&[]);
    assert_eq!(ClearMode::from_labels(MetricType::Gauge, &bogus), ClearMode::Replace);
    assert_eq!(
        ClearMode::from_labels(MetricType::Gauge, &bogus),
        ClearMode::from_labels(MetricType::Gauge, &none)
    );
    assert_eq!(ClearMode::from_labels(MetricType::Counter, &bogus), ClearMode::Aggregate);
}

#[test]
fn label_sets_compare_unordered() {
    let a = labels(&[("a", "1"), ("b", "2")]);
    let b = labels(&[("b", "2"), ("a", "1")]);
    let c = labels(&[("a", "1"), ("b", "3")]);
    assert!(same_label_set(&a, &b));
    assert!(!same_label_set(&a, &c));
    let stripped = strip_clearmode(labels(&[("clearmode", "x"), ("a", "1")]));
    assert!(same_label_set(&stripped, &labels(&[("a", "1")])));
    assert_eq!(stripped.len(), 1);
}

#[test]
fn new_label_set_is_stored_without_clearmode() {
    let mut fam = AggregationFamily::new(family(
        "g",
        MetricType::Gauge,
        vec![sample(&[("a", "1"), ("clearmode", "replace")], Value::Gauge(MetricNumber::Int(1)))],
    ));
    assert_eq!(label_strings(&fam.base_family.samples[0]), vec![("a".to_string(), "1".to_string())]);
    let batch = family(
        "g",
        MetricType::Gauge,
        vec![
            sample(&[("a", "2"), ("clearmode", "aggregate")], Value::Gauge(MetricNumber::Int(5))),
            sample(&[("clearmode", "aggregate"), ("a", "1")], Value::Gauge(MetricNumber::Int(5))),
        ],
    );
    assert_eq!(fam.merge(batch), Ok(()));
    let s = &fam.base_family.samples;
    assert_eq!(s.len(), 2);
    assert!(matches!(s[0].value, Value::Gauge(MetricNumber::Int(6))));
    assert_eq!(label_strings(&s[1]), vec![("a".to_string(), "2".to_string())]);
    assert!(matches!(s[1].value, Value::Gauge(MetricNumber::Int(5))));
}

#[test]
fn family_clear_discards_stored_samples() {
    let mut fam = AggregationFamily::new(family(
        "c",
        MetricType::Counter,
        vec![
            sample(&[("a", "1")], Value::Counter(CounterValue { value: MetricNumber::Int(1), exemplar: None })),
            sample(&[("a", "2")], Value::Counter(CounterValue { value: MetricNumber::Int(2), exemplar: None })),
        ],
    ));
    let batch = family(
        "c",
        MetricType::Counter,
        vec![
            sample(&[("a", "3")], Value::Counter(CounterValue { value: MetricNumber::Int(3), exemplar: None })),
            sample(
                &[("a", "1"), ("clearmode", "family")],
                Value::Counter(CounterValue { value: MetricNumber::Int(9), exemplar: None }),
            ),
        ],
    );
    assert_eq!(fam.merge(batch), Ok(()));
    let s = &fam.base_family.samples;
    assert_eq!(s.len(), 2);
    assert_eq!(label_strings(&s[0]), vec![("a".to_string(), "3".to_string())]);
    assert_eq!(label_strings(&s[1]), vec![("a".to_string(), "1".to_string())]);
    assert!(matches!(&s[1].value, Value::Counter(c) if c.value == MetricNumber::Int(9)));
}

#[test]
fn family_merge_rejects_other_name_and_type() {
    let mut fam = AggregationFamily::new(family("g", MetricType::Gauge, vec![]));
    assert_eq!(
        fam.merge(family("h", MetricType::Gauge, vec![])),
        Err(AggregationError::NameMismatch)
    );
    assert_eq!(
        fam.merge(family("g", MetricType::Counter, vec![])),
        Err(AggregationError::TypeMismatch)
    );
}

fn replace_batch() -> MetricFamily {
    family(
        "r",
        MetricType::Counter,
        vec![
            sample(
                &[("a", "1"), ("clearmode", "replace")],
                Value::Counter(CounterValue { value: MetricNumber::Int(4), exemplar: None }),
            ),
            sample(
                &[("a", "2"), ("clearmode", "replace")],
                Value::Counter(CounterValue { value: MetricNumber::Float(0.5), exemplar: None }),
            ),
        ],
    )
}

fn counter_values(f: &AggregationFamily) -> Vec<(Vec<(String, String)>, MetricNumber)> {
    f.base_family
        .samples
        .iter()
        .map(|s| match &s.value {
            Value::Counter(c) => (label_strings(s), c.value),
            _ => panic!("not a counter"),
        })
        .collect()
}

#[test]
fn replace_batch_twice_equals_once() {
    let start = || {
        AggregationFamily::new(family(
            "r",
            MetricType::Counter,
            vec![sample(
                &[("a", "1")],
                Value::Counter(CounterValue { value: MetricNumber::Int(100), exemplar: None }),
            )],
        ))
    };
    let mut once = start();
    assert_eq!(once.merge(replace_batch()), Ok(()));
    let mut twice = start();
    assert_eq!(twice.merge(replace_batch()), Ok(()));
    assert_eq!(twice.merge(replace_batch()), Ok(()));
    assert_eq!(counter_values(&once), counter_values(&twice));
    assert_eq!(counter_values(&once)[0].1, MetricNumber::Int(4));
}

fn only_value(agg: &Aggregator, name: &str) -> Vec<Value> {
    let fam = agg.families.iter().find(|f| f.base_family.name == name).unwrap();
    fam.base_family
        .samples
        .iter()
        .map(|s| match &s.value {
            Value::Gauge(n) => Value::Gauge(*n),
            Value::Counter(c) => {
                Value::Counter(CounterValue { value: c.value, exemplar: c.exemplar.clone() })
            }
            Value::Histogram(h) => Value::Histogram(HistogramValue {
                sum: h.sum,
                count: h.count,
                created_bits: h.created_bits,
                buckets: h
                    .buckets
                    .iter()
                    .map(|b| Bucket {
                        count: b.count,
                        upper_bound_bits: b.upper_bound_bits,
                        exemplar: b.exemplar.clone(),
                    })
                    .collect(),
            }),
            _ => panic!("unexpected kind"),
        })
        .collect()
}

fn scenario_batch(n: i64) -> Vec<MetricFamily> {
    vec![
        family("foo", MetricType::Gauge, vec![sample(&[], Value::Gauge(MetricNumber::Int(n)))]),
        family(
            "bar",
            MetricType::Counter,
            vec![sample(&[], Value::Counter(CounterValue { value: MetricNumber::Int(n), exemplar: None }))],
        ),
    ]
}

#[test]
fn end_to_end_gauge_counter_histogram() {
    let mut agg = Aggregator::new();
    assert_eq!(agg.merge_families(scenario_batch(1)), Ok(()));
    assert_eq!(agg.merge_families(scenario_batch(2)), Ok(()));
    assert!(matches!(only_value(&agg, "foo")[..], [Value::Gauge(MetricNumber::Int(2))]));
    assert!(matches!(&only_value(&agg, "bar")[..], [Value::Counter(c)] if c.value == MetricNumber::Int(3)));

    let hist = || {
        vec![family(
            "h",
            MetricType::Histogram,
            vec![sample(
                &[],
                Value::Histogram(HistogramValue {
                    sum: None,
                    count: None,
                    created_bits: None,
                    buckets: vec![bucket(1.0, 1), bucket(f64::INFINITY, 2)],
                }),
            )],
        )]
    };
    assert_eq!(agg.merge_families(hist()), Ok(()));
    assert_eq!(agg.merge_families(hist()), Ok(()));
    match &only_value(&agg, "h")[..] {
        [Value::Histogram(h)] => assert_eq!(
            bucket_view(&h.buckets),
            vec![(1.0, MetricNumber::Int(2)), (f64::INFINITY, MetricNumber::Int(4))]
        ),
        _ => panic!("not one histogram"),
    }
    assert_eq!(agg.render().len(), 3);
}

#[test]
fn failed_family_keeps_earlier_families_of_batch() {
    let mut agg = Aggregator::new();
    assert_eq!(agg.merge_families(scenario_batch(1)), Ok(()));
    let batch = vec![
        family("foo", MetricType::Gauge, vec![sample(&[], Value::Gauge(MetricNumber::Int(7)))]),
        family("bar", MetricType::Gauge, vec![sample(&[], Value::Gauge(MetricNumber::Int(7)))]),
    ];
    assert_eq!(agg.merge_families(batch), Err(AggregationError::TypeMismatch));
    assert!(matches!(only_value(&agg, "foo")[..], [Value::Gauge(MetricNumber::Int(7))]));
    assert!(matches!(&only_value(&agg, "bar")[..], [Value::Counter(c)] if c.value == MetricNumber::Int(1)));
}

#[test]
fn value_error_is_reported_by_the_aggregator() {
    let mut agg = Aggregator::new();
    assert_eq!(agg.merge_families(scenario_batch(1)), Ok(()));
    let batch = vec![family(
        "foo",
        MetricType::Gauge,
        vec![sample(&[], Value::Unknown(MetricNumber::Int(7)))],
    )];
    assert_eq!(agg.merge_families(batch), Err(AggregationError::ValueTypeMismatch));
    assert!(matches!(only_value(&agg, "foo")[..], [Value::Gauge(MetricNumber::Int(1))]));
}

#[test]
fn failed_family_merge_changes_nothing() {
    let mut fam = AggregationFamily::new(family(
        "g",
        MetricType::Gauge,
        vec![
            sample(&[("a", "1")], Value::Gauge(MetricNumber::Int(1))),
            sample(&[("a", "2")], Value::Gauge(MetricNumber::Int(2))),
        ],
    ));
    let batch = family(
        "g",
        MetricType::Gauge,
        vec![
            sample(&[("a", "1")], Value::Gauge(MetricNumber::Int(10))),
            sample(&[("a", "3")], Value::Gauge(MetricNumber::Int(30))),
            sample(&[("a", "2")], Value::Unknown(MetricNumber::Int(20))),
        ],
    );
    assert_eq!(fam.merge(batch), Err(AggregationError::ValueTypeMismatch));
    let s = &fam.base_family.samples;
    assert_eq!(s.len(), 2);
    assert!(matches!(s[0].value, Value::Gauge(MetricNumber::Int(1))));
    assert!(matches!(s[1].value, Value::Gauge(MetricNumber::Int(2))));
}

#[test]
fn opposite_infinities_aggregate_to_nan() {
    let mut stored = sample(&[], Value::Gauge(MetricNumber::Float(f64::INFINITY)));
    let incoming = sample(&[], Value::Gauge(MetricNumber::Float(f64::NEG_INFINITY)));
    assert_eq!(merge_metric(&mut stored, incoming, ClearMode::Aggregate), Ok(()));
    assert!(matches!(stored.value, Value::Gauge(MetricNumber::Float(v)) if v.is_nan()));
}

#[test]
fn bucket_merge_with_repeated_bounds_stays_ascending() {
    let a = vec![bucket(1.0, 1), bucket(1.0, 2), bucket(3.0, 3)];
    let b = vec![bucket(1.0, 10), bucket(2.0, 20)];
    let merged = merge_buckets(a, b);
    assert_eq!(
        bucket_view(&merged),
        vec![
            (1.0, MetricNumber::Int(11)),
            (1.0, MetricNumber::Int(2)),
            (2.0, MetricNumber::Int(20)),
            (3.0, MetricNumber::Int(3)),
        ]
    );
}
