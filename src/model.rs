//! Metric families and samples as the merge engine holds them.
use vstd::prelude::*;
use openmetrics_parser::{Exemplar, MetricNumber, SummaryValue};
use crate::labels::{Label, copy_labels};
use crate::number::{canon, canon_opt};

verus! {

#[derive(Clone, Copy, Debug, PartialEq, Eq, Structural)]
pub enum MetricType {
    Counter,
    Gauge,
    Histogram,
    Summary,
    Unknown,
}

pub struct CounterValue {
    pub value: MetricNumber,
    pub exemplar: Option<Exemplar>,
}

/// One histogram bucket. The upper bound is kept as the bit pattern of its
/// IEEE-754 double; `buckets::bound_key` orders those patterns as the numbers.
pub struct Bucket {
    pub count: MetricNumber,
    pub upper_bound_bits: u64,
    pub exemplar: Option<Exemplar>,
}

pub struct HistogramValue {
    pub sum: Option<MetricNumber>,
    pub count: Option<u64>,
    /// Bit pattern of the creation timestamp; carried, never computed on.
    pub created_bits: Option<u64>,
    pub buckets: Vec<Bucket>,
}

pub enum Value {
    Unknown(MetricNumber),
    Gauge(MetricNumber),
    Counter(CounterValue),
    Histogram(HistogramValue),
    Summary(SummaryValue),
}

pub struct Sample {
    pub labels: Vec<Label>,
    /// Bit pattern of the sample's timestamp; carried, never computed on.
    pub timestamp_bits: Option<u64>,
    pub value: Value,
}

pub struct MetricFamily {
    pub name: String,
    pub family_type: MetricType,
    pub help: String,
    pub unit: String,
    pub samples: Vec<Sample>,
}

fn copy_exemplar(e: &Option<Exemplar>) -> (r: Option<Exemplar>)
    ensures
        r == *e,
{
    match e {
        Some(x) => Some(x.clone()),
        None => None,
    }
}

fn copy_buckets(bs: &Vec<Bucket>) -> (r: Vec<Bucket>)
    ensures
        r@ == bs@,
{
    let mut out: Vec<Bucket> = Vec::new();
    let mut i: usize = 0;
    while i < bs.len()
        invariant
            i <= bs@.len(),
            out@ == bs@.take(i as int),
        decreases bs@.len() - i,
    {
        let b = &bs[i];
        out.push(
            Bucket {
                count: b.count,
                upper_bound_bits: b.upper_bound_bits,
                exemplar: copy_exemplar(&b.exemplar),
            },
        );
        assert(bs@.take(i + 1) =~= bs@.take(i as int).push(bs@[i as int]));
        i += 1;
    }
    assert(bs@.take(bs@.len() as int) =~= bs@);
    out
}

fn copy_value(v: &Value) -> (r: Value)
    ensures
        r@ == v@,
{
    match v {
        Value::Unknown(n) => Value::Unknown(*n),
        Value::Gauge(n) => Value::Gauge(*n),
        Value::Counter(c) => Value::Counter(
            CounterValue { value: c.value, exemplar: copy_exemplar(&c.exemplar) },
        ),
        Value::Histogram(h) => Value::Histogram(
            HistogramValue {
                sum: h.sum,
                count: h.count,
                created_bits: h.created_bits,
                buckets: copy_buckets(&h.buckets),
            },
        ),
        Value::Summary(s) => Value::Summary(s.clone()),
    }
}

/// A copy of a list of samples.
pub fn copy_samples(ss: &Vec<Sample>) -> (r: Vec<Sample>)
    ensures
        samples_view(r@) == samples_view(ss@),
        forall|i: int| 0 <= i < r@.len() ==> (#[trigger] r@[i]).labels@ == ss@[i].labels@,
{
    let mut out: Vec<Sample> = Vec::new();
    let mut i: usize = 0;
    while i < ss.len()
        invariant
            i <= ss@.len(),
            out@.len() == i,
            forall|j: int| 0 <= j < i ==> (#[trigger] out@[j])@ == ss@[j]@,
        decreases ss@.len() - i,
    {
        let s = &ss[i];
        out.push(
            Sample {
                labels: copy_labels(&s.labels),
                timestamp_bits: s.timestamp_bits,
                value: copy_value(&s.value),
            },
        );
        i += 1;
    }
    assert(samples_view(out@) =~= samples_view(ss@));
    out
}

pub ghost struct BucketView {
    pub count: MetricNumber,
    pub upper_bound_bits: u64,
    pub exemplar: Option<Exemplar>,
}

pub ghost struct HistogramView {
    pub sum: Option<MetricNumber>,
    pub count: Option<u64>,
    pub created_bits: Option<u64>,
    pub buckets: Seq<BucketView>,
}

pub ghost enum ValueView {
    Unknown(MetricNumber),
    Gauge(MetricNumber),
    Counter(MetricNumber, Option<Exemplar>),
    Histogram(HistogramView),
    Summary(SummaryValue),
}

pub ghost struct SampleView {
    pub labels: Seq<Label>,
    pub timestamp_bits: Option<u64>,
    pub value: ValueView,
}

pub ghost struct FamilyView {
    pub name: Seq<char>,
    pub family_type: MetricType,
    pub help: Seq<char>,
    pub unit: Seq<char>,
    pub samples: Seq<SampleView>,
}

impl View for Bucket {
    type V = BucketView;

    open spec fn view(&self) -> BucketView {
        BucketView {
            count: canon(self.count),
            upper_bound_bits: self.upper_bound_bits,
            exemplar: self.exemplar,
        }
    }
}

pub open spec fn buckets_view(s: Seq<Bucket>) -> Seq<BucketView> {
    s.map_values(|b: Bucket| b@)
}

impl View for Value {
    type V = ValueView;

    open spec fn view(&self) -> ValueView {
        match self {
            Value::Unknown(n) => ValueView::Unknown(canon(*n)),
            Value::Gauge(n) => ValueView::Gauge(canon(*n)),
            Value::Counter(c) => ValueView::Counter(canon(c.value), c.exemplar),
            Value::Histogram(h) => ValueView::Histogram(
                HistogramView {
                    sum: canon_opt(h.sum),
                    count: h.count,
                    created_bits: h.created_bits,
                    buckets: buckets_view(h.buckets@),
                },
            ),
            Value::Summary(s) => ValueView::Summary(*s),
        }
    }
}

impl View for Sample {
    type V = SampleView;

    open spec fn view(&self) -> SampleView {
        SampleView { labels: self.labels@, timestamp_bits: self.timestamp_bits, value: self.value@ }
    }
}

pub open spec fn samples_view(s: Seq<Sample>) -> Seq<SampleView> {
    s.map_values(|x: Sample| x@)
}

impl View for MetricFamily {
    type V = FamilyView;

    open spec fn view(&self) -> FamilyView {
        FamilyView {
            name: self.name@,
            family_type: self.family_type,
            help: self.help@,
            unit: self.unit@,
            samples: samples_view(self.samples@),
        }
    }
}

} // verus!
