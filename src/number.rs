//! Numbers of the exposition format, as the parser crate represents them.
use vstd::prelude::*;
use vstd::float::FloatBitsProperties;
use openmetrics_parser::{Exemplar, MetricNumber, SummaryValue};

verus! {

#[verifier::external_type_specification]
pub struct ExMetricNumber(MetricNumber);

#[verifier::external_type_specification]
#[verifier::external_body]
pub struct ExExemplar(Exemplar);

#[verifier::external_type_specification]
#[verifier::external_body]
pub struct ExSummaryValue(SummaryValue);

/// Relies on the derived `Clone` of openmetrics-parser's `Exemplar`, which
/// copies its labels, value and timestamp.
pub assume_specification[ <Exemplar as Clone>::clone ](e: &Exemplar) -> (r: Exemplar)
    ensures
        r == *e,
;

/// Relies on the derived `Clone` of openmetrics-parser's `SummaryValue`, which
/// copies its sum, count, creation time and quantiles.
pub assume_specification[ <SummaryValue as Clone>::clone ](s: &SummaryValue) -> (r: SummaryValue)
    ensures
        r == *s,
;

pub open spec fn is_nan(n: MetricNumber) -> bool {
    match n {
        MetricNumber::Float(f) => f.is_nan_spec(),
        MetricNumber::Int(_) => false,
    }
}

/// One NaN that stands for all of them.
pub open spec fn canonical_nan() -> MetricNumber {
    choose|n: MetricNumber| is_nan(n)
}

/// The number with all NaNs identified. Sign and payload of a NaN produced by
/// float arithmetic are not fixed, so contracts speak of numbers up to this.
pub open spec fn canon(n: MetricNumber) -> MetricNumber {
    if is_nan(n) {
        canonical_nan()
    } else {
        n
    }
}

pub open spec fn canon_opt(n: Option<MetricNumber>) -> Option<MetricNumber> {
    match n {
        Some(x) => Some(canon(x)),
        None => None,
    }
}

pub proof fn lemma_canon(n: MetricNumber)
    ensures
        canon(canon(n)) == canon(n),
        canon(n) is Int <==> n is Int,
        n is Int ==> canon(n) == n,
{
    if is_nan(n) {
        assert(is_nan(canonical_nan()));
    }
}

/// The parser crate's sum when at least one operand is a float, with all NaN
/// results identified. A NaN operand gives a NaN result, so the class of the
/// result depends on the classes of the operands alone.
pub uninterp spec fn float_sum(a: MetricNumber, b: MetricNumber) -> MetricNumber;

/// Sum of two metric numbers, up to NaN: two integers add with wrap-around,
/// anything involving a float is the parser crate's float sum.
pub open spec fn number_sum(a: MetricNumber, b: MetricNumber) -> MetricNumber {
    match (a, b) {
        (MetricNumber::Int(x), MetricNumber::Int(y)) => MetricNumber::Int(x.wrapping_add(y)),
        _ => float_sum(a, b),
    }
}

/// Relies on `MetricNumber + MetricNumber` of openmetrics-parser: when either
/// side is a float, it converts an integer operand to a float and adds, so the
/// result is a float, determined by the operands except for the bits of a NaN.
#[verifier::external_body]
fn add_with_float(a: MetricNumber, b: MetricNumber) -> (r: MetricNumber)
    requires
        !(a is Int && b is Int),
    ensures
        r is Float,
        canon(r) == float_sum(canon(a), canon(b)),
{
    a + b
}

/// Adds two metric numbers; integer sums wrap around instead of panicking.
pub fn add_numbers(a: MetricNumber, b: MetricNumber) -> (r: MetricNumber)
    ensures
        canon(r) == number_sum(canon(a), canon(b)),
{
    proof {
        lemma_canon(a);
        lemma_canon(b);
    }
    match (a, b) {
        (MetricNumber::Int(x), MetricNumber::Int(y)) => MetricNumber::Int(x.wrapping_add(y)),
        _ => add_with_float(a, b),
    }
}

} // verus!
