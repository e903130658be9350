//! Combination of a stored sample's value with an incoming one.
use vstd::prelude::*;
use openmetrics_parser::{Exemplar, MetricNumber};
use crate::buckets::{merge_buckets, merged_buckets};
use crate::clear_mode::ClearMode;
use crate::error::AggregationError;
use crate::model::{CounterValue, HistogramValue, HistogramView, Sample, Value, ValueView};
use crate::number::{add_numbers, canon, canon_opt, lemma_canon, number_sum};

verus! {

pub open spec fn same_kind(a: ValueView, b: ValueView) -> bool {
    ||| (a is Unknown && b is Unknown)
    ||| (a is Gauge && b is Gauge)
    ||| (a is Counter && b is Counter)
    ||| (a is Histogram && b is Histogram)
    ||| (a is Summary && b is Summary)
}

/// Why `existing` and `incoming` cannot be merged, if they cannot.
pub open spec fn merge_error(existing: ValueView, incoming: ValueView) -> Option<AggregationError> {
    if !same_kind(existing, incoming) {
        Some(AggregationError::ValueTypeMismatch)
    } else if existing is Summary {
        Some(AggregationError::UnsupportedMerge)
    } else {
        None
    }
}

/// A scalar under a mode: the sum when aggregating, the incoming one otherwise.
pub open spec fn merged_number(a: MetricNumber, b: MetricNumber, mode: ClearMode) -> MetricNumber {
    if mode == ClearMode::Aggregate {
        number_sum(a, b)
    } else {
        b
    }
}

/// An optional histogram number: kept only where both sides have it.
pub open spec fn merged_opt_number(
    a: Option<MetricNumber>,
    b: Option<MetricNumber>,
    mode: ClearMode,
) -> Option<MetricNumber> {
    match (a, b) {
        (Some(x), Some(y)) => Some(merged_number(x, y, mode)),
        _ => None,
    }
}

/// An optional histogram count: kept only where both sides have it; sums wrap.
pub open spec fn merged_opt_count(a: Option<u64>, b: Option<u64>, mode: ClearMode) -> Option<u64> {
    match (a, b) {
        (Some(x), Some(y)) => Some(
            if mode == ClearMode::Aggregate {
                x.wrapping_add(y)
            } else {
                y
            },
        ),
        _ => None,
    }
}

/// What `existing` and `incoming` merge into under `mode`, for two values of
/// one mergeable kind.
pub open spec fn merged_value(existing: ValueView, incoming: ValueView, mode: ClearMode) -> ValueView {
    match (existing, incoming) {
        (ValueView::Unknown(a), ValueView::Unknown(b)) => ValueView::Unknown(merged_number(a, b, mode)),
        (ValueView::Gauge(a), ValueView::Gauge(b)) => ValueView::Gauge(merged_number(a, b, mode)),
        (ValueView::Counter(a, _), ValueView::Counter(b, ex)) => ValueView::Counter(
            merged_number(a, b, mode),
            ex,
        ),
        (ValueView::Histogram(a), ValueView::Histogram(b)) => ValueView::Histogram(
            HistogramView {
                sum: merged_opt_number(a.sum, b.sum, mode),
                count: merged_opt_count(a.count, b.count, mode),
                created_bits: b.created_bits,
                buckets: if mode == ClearMode::Aggregate {
                    merged_buckets(a.buckets, b.buckets)
                } else {
                    b.buckets
                },
            },
        ),
        _ => incoming,
    }
}

fn merge_number(a: MetricNumber, b: MetricNumber, mode: ClearMode) -> (r: MetricNumber)
    ensures
        canon(r) == merged_number(canon(a), canon(b), mode),
{
    match mode {
        ClearMode::Aggregate => add_numbers(a, b),
        _ => b,
    }
}

/// Finds why two values cannot be merged, without consuming them.
pub fn check_merge(existing: &Value, incoming: &Value) -> (r: Option<AggregationError>)
    ensures
        r == merge_error(existing@, incoming@),
{
    match (existing, incoming) {
        (Value::Unknown(_), Value::Unknown(_)) => None,
        (Value::Gauge(_), Value::Gauge(_)) => None,
        (Value::Counter(_), Value::Counter(_)) => None,
        (Value::Histogram(_), Value::Histogram(_)) => None,
        (Value::Summary(_), Value::Summary(_)) => Some(AggregationError::UnsupportedMerge),
        _ => Some(AggregationError::ValueTypeMismatch),
    }
}

/// Merges two values of one kind under an `Aggregate` or `Replace` mode.
pub fn merge_values(existing: Value, incoming: Value, mode: ClearMode) -> (r: Value)
    requires
        merge_error(existing@, incoming@) is None,
        mode != ClearMode::Family,
    ensures
        r@ == merged_value(existing@, incoming@, mode),
{
    match existing {
        Value::Unknown(a) => match incoming {
            Value::Unknown(b) => Value::Unknown(merge_number(a, b, mode)),
            other => other,
        },
        Value::Gauge(a) => match incoming {
            Value::Gauge(b) => Value::Gauge(merge_number(a, b, mode)),
            other => other,
        },
        Value::Counter(a) => match incoming {
            Value::Counter(b) => Value::Counter(
                CounterValue { value: merge_number(a.value, b.value, mode), exemplar: b.exemplar },
            ),
            other => other,
        },
        Value::Histogram(a) => match incoming {
            Value::Histogram(b) => {
                let aggregate = mode == ClearMode::Aggregate;
                let sum = match (a.sum, b.sum) {
                    (Some(x), Some(y)) => Some(merge_number(x, y, mode)),
                    _ => None,
                };
                let count = match (a.count, b.count) {
                    (Some(x), Some(y)) => Some(
                        if aggregate {
                            x.wrapping_add(y)
                        } else {
                            y
                        },
                    ),
                    _ => None,
                };
                assert(canon_opt(sum) == merged_opt_number(canon_opt(a.sum), canon_opt(b.sum), mode));
                let buckets = if aggregate {
                    merge_buckets(a.buckets, b.buckets)
                } else {
                    b.buckets
                };
                Value::Histogram(
                    HistogramValue { sum, count, created_bits: b.created_bits, buckets },
                )
            },
            other => other,
        },
        Value::Summary(_) => incoming,
    }
}

/// Merges the value of `merge` into `into` under `clear_mode`. The labels and
/// timestamp of `into` stay; on an error nothing changes.
pub fn merge_metric(into: &mut Sample, merge: Sample, clear_mode: ClearMode) -> (r: Result<
    (),
    AggregationError,
>)
    requires
        clear_mode != ClearMode::Family,
    ensures
        match merge_error(old(into).value@, merge.value@) {
            Some(e) => r == Err::<(), AggregationError>(e) && *final(into) == *old(into),
            None => {
                &&& r is Ok
                &&& final(into).labels == old(into).labels
                &&& final(into).timestamp_bits == old(into).timestamp_bits
                &&& final(into).value@ == merged_value(old(into).value@, merge.value@, clear_mode)
            },
        },
{
    if let Some(e) = check_merge(&into.value, &merge.value) {
        return Err(e);
    }
    let mut existing = Value::Unknown(MetricNumber::Int(0));
    std::mem::swap(&mut into.value, &mut existing);
    into.value = merge_values(existing, merge.value, clear_mode);
    Ok(())
}

/// A gauge merged under `Replace` is the incoming value, the stored one
/// discarded.
pub proof fn gauge_replace_takes_incoming(stored: MetricNumber, incoming: MetricNumber)
    ensures
        merged_value(ValueView::Gauge(stored), ValueView::Gauge(incoming), ClearMode::Replace)
            == ValueView::Gauge(incoming),
{
}

/// Counters merged under `Aggregate` sum their values and keep the incoming
/// exemplar.
pub proof fn counter_aggregate_sums(
    a: MetricNumber,
    a_exemplar: Option<Exemplar>,
    b: MetricNumber,
    b_exemplar: Option<Exemplar>,
)
    ensures
        merged_value(
            ValueView::Counter(a, a_exemplar),
            ValueView::Counter(b, b_exemplar),
            ClearMode::Aggregate,
        ) == ValueView::Counter(number_sum(a, b), b_exemplar),
{
}

/// Replacing a value with the same incoming value twice leaves what replacing
/// it once left.
pub proof fn replace_twice_is_replace_once(stored: ValueView, incoming: ValueView)
    requires
        merge_error(stored, incoming) is None,
    ensures
        merge_error(merged_value(stored, incoming, ClearMode::Replace), incoming) is None,
        merged_value(merged_value(stored, incoming, ClearMode::Replace), incoming, ClearMode::Replace)
            == merged_value(stored, incoming, ClearMode::Replace),
{
}

} // verus!
