//! Merging of histogram bucket lists that are sorted by upper bound.
use vstd::prelude::*;
use openmetrics_parser::MetricNumber;
use crate::model::{Bucket, BucketView, buckets_view};
use crate::number::{add_numbers, canon, number_sum};

verus! {

pub const SIGN_BIT: u64 = 0x8000_0000_0000_0000;

/// Maps the bit pattern of a double to a key whose integer order is the
/// order of the numbers: negatives are flipped, non-negatives lifted above
/// them, and negative zero shares the key of positive zero.
pub open spec fn bound_key(bits: u64) -> u64 {
    if bits == SIGN_BIT {
        SIGN_BIT
    } else if bits & SIGN_BIT != 0 {
        !bits
    } else {
        bits | SIGN_BIT
    }
}

pub fn order_key(bits: u64) -> (r: u64)
    ensures
        r == bound_key(bits),
{
    if bits == SIGN_BIT {
        SIGN_BIT
    } else if bits & SIGN_BIT != 0 {
        !bits
    } else {
        bits | SIGN_BIT
    }
}

pub open spec fn bucket_key(b: BucketView) -> u64 {
    bound_key(b.upper_bound_bits)
}

/// The bucket that two buckets of one bound merge into: counts add up, the
/// exemplar comes from the second.
pub open spec fn combined_bucket(x: BucketView, y: BucketView) -> BucketView {
    BucketView {
        count: number_sum(x.count, y.count),
        upper_bound_bits: x.upper_bound_bits,
        exemplar: y.exemplar,
    }
}

/// Two-pointer merge of two bucket lists.
pub open spec fn merged_buckets(a: Seq<BucketView>, b: Seq<BucketView>) -> Seq<BucketView>
    decreases a.len() + b.len(),
{
    if a.len() == 0 {
        b
    } else if b.len() == 0 {
        a
    } else if bucket_key(a[0]) < bucket_key(b[0]) {
        seq![a[0]] + merged_buckets(a.drop_first(), b)
    } else if bucket_key(a[0]) > bucket_key(b[0]) {
        seq![b[0]] + merged_buckets(a, b.drop_first())
    } else {
        seq![combined_bucket(a[0], b[0])] + merged_buckets(a.drop_first(), b.drop_first())
    }
}

/// Strictly ascending by upper bound.
pub open spec fn buckets_sorted(s: Seq<BucketView>) -> bool {
    forall|i: int, j: int| 0 <= i < j < s.len() ==> bucket_key(s[i]) < bucket_key(s[j])
}

/// The count of the first bucket whose bound has key `k`.
pub open spec fn count_at(s: Seq<BucketView>, k: u64) -> Option<MetricNumber>
    decreases s.len(),
{
    if s.len() == 0 {
        None
    } else if bucket_key(s[0]) == k {
        Some(s[0].count)
    } else {
        count_at(s.drop_first(), k)
    }
}

/// What the count at one bound becomes: the sum where both sides have the
/// bound, the one count where only one side has it.
pub open spec fn combined_count(x: Option<MetricNumber>, y: Option<MetricNumber>) -> Option<
    MetricNumber,
> {
    match (x, y) {
        (Some(p), Some(q)) => Some(number_sum(p, q)),
        (Some(p), None) => Some(p),
        (None, q) => q,
    }
}

/// Merges two bucket lists sorted by upper bound: buckets of equal bound
/// become one with the counts summed, the rest keep their order.
pub fn merge_buckets(first: Vec<Bucket>, second: Vec<Bucket>) -> (r: Vec<Bucket>)
    ensures
        buckets_view(r@) == merged_buckets(buckets_view(first@), buckets_view(second@)),
{
    let mut a = first;
    let mut b = second;
    let mut out: Vec<Bucket> = Vec::new();
    while a.len() > 0 && b.len() > 0
        invariant
            merged_buckets(buckets_view(first@), buckets_view(second@)) == buckets_view(out@)
                + merged_buckets(buckets_view(a@), buckets_view(b@)),
        decreases a@.len() + b@.len(),
    {
        let ghost (a0, b0, out0) = (buckets_view(a@), buckets_view(b@), buckets_view(out@));
        proof {
            lemma_view_front(a@);
            lemma_view_front(b@);
        }
        let ka = order_key(a[0].upper_bound_bits);
        let kb = order_key(b[0].upper_bound_bits);
        if ka < kb {
            let x = a.remove(0);
            assert(a0.drop_first() =~= buckets_view(a@));
            out.push(x);
            assert(buckets_view(out@) =~= out0.push(x@));
        } else if ka > kb {
            let y = b.remove(0);
            assert(b0.drop_first() =~= buckets_view(b@));
            out.push(y);
            assert(buckets_view(out@) =~= out0.push(y@));
        } else {
            let x = a.remove(0);
            let y = b.remove(0);
            assert(a0.drop_first() =~= buckets_view(a@));
            assert(b0.drop_first() =~= buckets_view(b@));
            let count = add_numbers(x.count, y.count);
            let merged = Bucket { count, upper_bound_bits: x.upper_bound_bits, exemplar: y.exemplar };
            assert(merged@ == combined_bucket(x@, y@));
            out.push(merged);
            assert(buckets_view(out@) =~= out0.push(merged@));
        }
        assert(buckets_view(out@) + merged_buckets(buckets_view(a@), buckets_view(b@)) =~= out0
            + merged_buckets(a0, b0));
    }
    let ghost (a1, b1, out1) = (a@, b@, out@);
    assert(merged_buckets(buckets_view(a1), buckets_view(b1)) =~= buckets_view(a1) + buckets_view(
        b1,
    ));
    out.append(&mut a);
    out.append(&mut b);
    assert(out@ =~= out1 + a1 + b1);
    assert(buckets_view(out@) =~= buckets_view(out1) + (buckets_view(a1) + buckets_view(b1)));
    out
}

proof fn lemma_view_front(s: Seq<Bucket>)
    ensures
        s.len() > 0 ==> buckets_view(s)[0] == s[0]@,
        s.len() > 0 ==> buckets_view(s.drop_first()) == buckets_view(s).drop_first(),
        s.len() > 0 ==> buckets_view(s.remove(0)) == buckets_view(s).drop_first(),
{
    if s.len() > 0 {
        assert(buckets_view(s.drop_first()) =~= buckets_view(s).drop_first());
        assert(s.remove(0) =~= s.drop_first());
    }
}

proof fn lemma_count_absent(s: Seq<BucketView>, k: u64)
    requires
        forall|i: int| 0 <= i < s.len() ==> bucket_key(#[trigger] s[i]) != k,
    ensures
        count_at(s, k) is None,
    decreases s.len(),
{
    if s.len() > 0 {
        assert(bucket_key(s[0]) != k);
        assert forall|i: int| 0 <= i < s.drop_first().len() implies bucket_key(
            #[trigger] s.drop_first()[i],
        ) != k by {
            assert(s.drop_first()[i] == s[i + 1]);
        }
        lemma_count_absent(s.drop_first(), k);
    }
}

proof fn lemma_merged_above(a: Seq<BucketView>, b: Seq<BucketView>, lo: u64)
    requires
        forall|i: int| 0 <= i < a.len() ==> bucket_key(#[trigger] a[i]) > lo,
        forall|i: int| 0 <= i < b.len() ==> bucket_key(#[trigger] b[i]) > lo,
    ensures
        forall|i: int|
            0 <= i < merged_buckets(a, b).len() ==> bucket_key(#[trigger] merged_buckets(a, b)[i])
                > lo,
    decreases a.len() + b.len(),
{
    if a.len() > 0 && b.len() > 0 {
        let (x, y) = (a[0], b[0]);
        assert(bucket_key(x) > lo && bucket_key(y) > lo);
        assert forall|i: int| 0 <= i < a.drop_first().len() implies bucket_key(
            #[trigger] a.drop_first()[i],
        ) > lo by {
            assert(a.drop_first()[i] == a[i + 1]);
        }
        assert forall|i: int| 0 <= i < b.drop_first().len() implies bucket_key(
            #[trigger] b.drop_first()[i],
        ) > lo by {
            assert(b.drop_first()[i] == b[i + 1]);
        }
        let m = merged_buckets(a, b);
        if bucket_key(x) < bucket_key(y) {
            lemma_merged_above(a.drop_first(), b, lo);
            assert forall|i: int| 0 <= i < m.len() implies bucket_key(#[trigger] m[i]) > lo by {
                if i > 0 {
                    assert(m[i] == merged_buckets(a.drop_first(), b)[i - 1]);
                }
            }
        } else if bucket_key(x) > bucket_key(y) {
            lemma_merged_above(a, b.drop_first(), lo);
            assert forall|i: int| 0 <= i < m.len() implies bucket_key(#[trigger] m[i]) > lo by {
                if i > 0 {
                    assert(m[i] == merged_buckets(a, b.drop_first())[i - 1]);
                }
            }
        } else {
            lemma_merged_above(a.drop_first(), b.drop_first(), lo);
            assert forall|i: int| 0 <= i < m.len() implies bucket_key(#[trigger] m[i]) > lo by {
                if i > 0 {
                    assert(m[i] == merged_buckets(a.drop_first(), b.drop_first())[i - 1]);
                }
            }
        }
    }
}

proof fn lemma_tail_sorted(a: Seq<BucketView>)
    requires
        a.len() > 0,
        buckets_sorted(a),
    ensures
        buckets_sorted(a.drop_first()),
        forall|i: int|
            0 <= i < a.drop_first().len() ==> bucket_key(#[trigger] a.drop_first()[i]) > bucket_key(
                a[0],
            ),
{
    assert forall|i: int| 0 <= i < a.drop_first().len() implies bucket_key(
        #[trigger] a.drop_first()[i],
    ) > bucket_key(a[0]) by {
        assert(a.drop_first()[i] == a[i + 1]);
    }
}

proof fn lemma_cons_sorted(x: BucketView, m: Seq<BucketView>)
    requires
        buckets_sorted(m),
        forall|i: int| 0 <= i < m.len() ==> bucket_key(#[trigger] m[i]) > bucket_key(x),
    ensures
        buckets_sorted(seq![x] + m),
        (seq![x] + m).drop_first() == m,
{
    let s = seq![x] + m;
    assert(s.drop_first() =~= m);
    assert forall|i: int, j: int| 0 <= i < j < s.len() implies bucket_key(s[i]) < bucket_key(
        s[j],
    ) by {
        assert(s[j] == m[j - 1]);
        if i > 0 {
            assert(s[i] == m[i - 1]);
        }
    }
}

/// Merging two bucket lists that are strictly ascending by upper bound gives
/// a strictly ascending list in which the count at every bound is the sum of
/// the counts at that bound in the inputs, or the one count where only one
/// input has the bound.
pub proof fn merged_buckets_sorted_and_summed(a: Seq<BucketView>, b: Seq<BucketView>)
    requires
        buckets_sorted(a),
        buckets_sorted(b),
    ensures
        buckets_sorted(merged_buckets(a, b)),
        forall|k: u64|
            #[trigger] count_at(merged_buckets(a, b), k) == combined_count(
                count_at(a, k),
                count_at(b, k),
            ),
    decreases a.len() + b.len(),
{
    let m = merged_buckets(a, b);
    if a.len() == 0 {
        assert forall|k: u64| #[trigger] count_at(m, k) == combined_count(
            count_at(a, k),
            count_at(b, k),
        ) by {}
    } else if b.len() == 0 {
        assert forall|k: u64| #[trigger] count_at(m, k) == combined_count(
            count_at(a, k),
            count_at(b, k),
        ) by {
            match count_at(a, k) {
                Some(_) => {},
                None => {},
            }
        }
    } else {
        let (x, y) = (a[0], b[0]);
        let (kx, ky) = (bucket_key(x), bucket_key(y));
        lemma_tail_sorted(a);
        lemma_tail_sorted(b);
        if kx < ky {
            let (a2, b2) = (a.drop_first(), b);
            merged_buckets_sorted_and_summed(a2, b2);
            lemma_merged_above(a2, b2, kx);
            lemma_cons_sorted(x, merged_buckets(a2, b2));
            assert forall|k: u64| #[trigger] count_at(m, k) == combined_count(
                count_at(a, k),
                count_at(b, k),
            ) by {
                if k == kx {
                    lemma_count_absent(b, k);
                } else {
                    assert(count_at(m, k) == count_at(merged_buckets(a2, b2), k));
                }
            }
        } else if kx > ky {
            let (a2, b2) = (a, b.drop_first());
            merged_buckets_sorted_and_summed(a2, b2);
            lemma_merged_above(a2, b2, ky);
            lemma_cons_sorted(y, merged_buckets(a2, b2));
            assert forall|k: u64| #[trigger] count_at(m, k) == combined_count(
                count_at(a, k),
                count_at(b, k),
            ) by {
                if k == ky {
                    lemma_count_absent(a, k);
                } else {
                    assert(count_at(m, k) == count_at(merged_buckets(a2, b2), k));
                }
            }
        } else {
            let (a2, b2) = (a.drop_first(), b.drop_first());
            merged_buckets_sorted_and_summed(a2, b2);
            lemma_merged_above(a2, b2, kx);
            lemma_cons_sorted(combined_bucket(x, y), merged_buckets(a2, b2));
            assert forall|k: u64| #[trigger] count_at(m, k) == combined_count(
                count_at(a, k),
                count_at(b, k),
            ) by {
                if k != kx {
                    assert(count_at(m, k) == count_at(merged_buckets(a2, b2), k));
                }
            }
        }
    }
}

/// Ascending by upper bound, repeated bounds allowed.
pub open spec fn buckets_ascending(s: Seq<BucketView>) -> bool {
    forall|i: int, j: int| 0 <= i < j < s.len() ==> bucket_key(s[i]) <= bucket_key(s[j])
}

proof fn lemma_merged_at_least(a: Seq<BucketView>, b: Seq<BucketView>, lo: u64)
    requires
        forall|i: int| 0 <= i < a.len() ==> bucket_key(#[trigger] a[i]) >= lo,
        forall|i: int| 0 <= i < b.len() ==> bucket_key(#[trigger] b[i]) >= lo,
    ensures
        forall|i: int|
            0 <= i < merged_buckets(a, b).len() ==> bucket_key(#[trigger] merged_buckets(a, b)[i])
                >= lo,
    decreases a.len() + b.len(),
{
    if a.len() > 0 && b.len() > 0 {
        let (x, y) = (a[0], b[0]);
        assert(bucket_key(x) >= lo && bucket_key(y) >= lo);
        assert forall|i: int| 0 <= i < a.drop_first().len() implies bucket_key(
            #[trigger] a.drop_first()[i],
        ) >= lo by {
            assert(a.drop_first()[i] == a[i + 1]);
        }
        assert forall|i: int| 0 <= i < b.drop_first().len() implies bucket_key(
            #[trigger] b.drop_first()[i],
        ) >= lo by {
            assert(b.drop_first()[i] == b[i + 1]);
        }
        let m = merged_buckets(a, b);
        let rest = if bucket_key(x) < bucket_key(y) {
            merged_buckets(a.drop_first(), b)
        } else if bucket_key(x) > bucket_key(y) {
            merged_buckets(a, b.drop_first())
        } else {
            merged_buckets(a.drop_first(), b.drop_first())
        };
        if bucket_key(x) < bucket_key(y) {
            lemma_merged_at_least(a.drop_first(), b, lo);
        } else if bucket_key(x) > bucket_key(y) {
            lemma_merged_at_least(a, b.drop_first(), lo);
        } else {
            lemma_merged_at_least(a.drop_first(), b.drop_first(), lo);
        }
        assert forall|i: int| 0 <= i < m.len() implies bucket_key(#[trigger] m[i]) >= lo by {
            if i > 0 {
                assert(m[i] == rest[i - 1]);
            }
        }
    }
}

proof fn lemma_tail_ascending(a: Seq<BucketView>)
    requires
        a.len() > 0,
        buckets_ascending(a),
    ensures
        buckets_ascending(a.drop_first()),
        forall|i: int|
            0 <= i < a.drop_first().len() ==> bucket_key(#[trigger] a.drop_first()[i]) >= bucket_key(
                a[0],
            ),
{
    assert forall|i: int| 0 <= i < a.drop_first().len() implies bucket_key(
        #[trigger] a.drop_first()[i],
    ) >= bucket_key(a[0]) by {
        assert(a.drop_first()[i] == a[i + 1]);
    }
}

proof fn lemma_cons_ascending(x: BucketView, m: Seq<BucketView>)
    requires
        buckets_ascending(m),
        forall|i: int| 0 <= i < m.len() ==> bucket_key(#[trigger] m[i]) >= bucket_key(x),
    ensures
        buckets_ascending(seq![x] + m),
{
    let s = seq![x] + m;
    assert forall|i: int, j: int| 0 <= i < j < s.len() implies bucket_key(s[i]) <= bucket_key(
        s[j],
    ) by {
        assert(s[j] == m[j - 1]);
        if i > 0 {
            assert(s[i] == m[i - 1]);
        }
    }
}

/// Merging two bucket lists that are ascending by upper bound, repeated
/// bounds allowed, gives an ascending list.
pub proof fn merged_buckets_ascending(a: Seq<BucketView>, b: Seq<BucketView>)
    requires
        buckets_ascending(a),
        buckets_ascending(b),
    ensures
        buckets_ascending(merged_buckets(a, b)),
    decreases a.len() + b.len(),
{
    if a.len() > 0 && b.len() > 0 {
        let (x, y) = (a[0], b[0]);
        let (kx, ky) = (bucket_key(x), bucket_key(y));
        lemma_tail_ascending(a);
        lemma_tail_ascending(b);
        if kx < ky {
            merged_buckets_ascending(a.drop_first(), b);
            lemma_merged_at_least(a.drop_first(), b, kx);
            lemma_cons_ascending(x, merged_buckets(a.drop_first(), b));
        } else if kx > ky {
            merged_buckets_ascending(a, b.drop_first());
            lemma_merged_at_least(a, b.drop_first(), ky);
            lemma_cons_ascending(y, merged_buckets(a, b.drop_first()));
        } else {
            merged_buckets_ascending(a.drop_first(), b.drop_first());
            lemma_merged_at_least(a.drop_first(), b.drop_first(), kx);
            lemma_cons_ascending(combined_bucket(x, y), merged_buckets(a.drop_first(), b.drop_first()));
        }
    }
}

} // verus!
