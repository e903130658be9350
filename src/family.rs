//! The merged state of one metric family, and how an incoming batch of
//! samples is folded into it.
use vstd::prelude::*;
use crate::clear_mode::{ClearMode, mode_named, resolved_mode, unknown_clearmode_falls_back};
use crate::error::AggregationError;
use crate::labels::{Label, clearmode_key, label_value, label_set, same_label_set, strip_clearmode, without_clearmode};
use crate::merge::{check_merge, merge_error, merge_values, merged_value, replace_twice_is_replace_once};
use crate::model::{copy_samples, FamilyView, MetricFamily, MetricType, Sample, SampleView, ValueView, samples_view};

verus! {

pub type LabelPairSet = Set<(Seq<char>, Seq<char>)>;

/// No label of `ls` is the reserved `clearmode` label.
pub open spec fn free_of_clearmode(ls: Seq<Label>) -> bool {
    forall|i: int| 0 <= i < ls.len() ==> (#[trigger] ls[i]).name@ != clearmode_key()
}

pub proof fn lemma_without_clearmode_is_free(ls: Seq<Label>)
    ensures
        free_of_clearmode(without_clearmode(ls)),
    decreases ls.len(),
{
    if ls.len() > 0 {
        lemma_without_clearmode_is_free(ls.drop_first());
        let rest = without_clearmode(ls.drop_first());
        if ls[0].name@ != clearmode_key() {
            assert forall|i: int| 0 <= i < (seq![ls[0]] + rest).len() implies (#[trigger] (seq![
                ls[0],
            ] + rest)[i]).name@ != clearmode_key() by {
                if i > 0 {
                    assert((seq![ls[0]] + rest)[i] == rest[i - 1]);
                }
            }
        }
    }
}

/// The sample with its `clearmode` label left out.
pub open spec fn stripped(s: SampleView) -> SampleView {
    SampleView { labels: without_clearmode(s.labels), ..s }
}

pub open spec fn stripped_all(s: Seq<SampleView>) -> Seq<SampleView> {
    s.map_values(|x: SampleView| stripped(x))
}

pub open spec fn is_first_match(st: Seq<SampleView>, key: LabelPairSet, k: int) -> bool {
    &&& 0 <= k < st.len()
    &&& label_set(st[k].labels) == key
    &&& forall|j: int| 0 <= j < k ==> label_set(#[trigger] st[j].labels) != key
}

/// Index of the first stored sample whose label set is `key`.
pub open spec fn first_match(st: Seq<SampleView>, key: LabelPairSet) -> Option<int> {
    if exists|k: int| is_first_match(st, key, k) {
        Some(choose|k: int| is_first_match(st, key, k))
    } else {
        None
    }
}

/// Folds one incoming sample into the stored samples `st` of a family of
/// type `t`: a new label set is appended, stripped; a known one has its value
/// merged under the sample's resolved mode.
pub open spec fn apply_sample(st: Seq<SampleView>, t: MetricType, s: SampleView) -> Result<
    Seq<SampleView>,
    AggregationError,
> {
    match first_match(st, label_set(without_clearmode(s.labels))) {
        None => Ok(st.push(stripped(s))),
        Some(k) => match merge_error(st[k].value, s.value) {
            Some(e) => Err(e),
            None => Ok(
                st.update(
                    k,
                    SampleView {
                        value: merged_value(st[k].value, s.value, resolved_mode(t, s.labels)),
                        ..st[k]
                    },
                ),
            ),
        },
    }
}

/// Folds the samples of `inc` in order; stops at the first error, with the
/// samples as the earlier ones left them.
pub open spec fn apply_batch(st: Seq<SampleView>, t: MetricType, inc: Seq<SampleView>) -> (Seq<
    SampleView,
>, Option<AggregationError>)
    decreases inc.len(),
{
    if inc.len() == 0 {
        (st, None)
    } else {
        let (mid, e) = apply_batch(st, t, inc.drop_last());
        if e is Some {
            (mid, e)
        } else {
            match apply_sample(mid, t, inc.last()) {
                Ok(next) => (next, None),
                Err(err) => (mid, Some(err)),
            }
        }
    }
}

/// Some sample of the batch asks for the whole family to be replaced.
pub open spec fn requests_family_clear(t: MetricType, inc: Seq<SampleView>) -> bool {
    exists|i: int| 0 <= i < inc.len() && resolved_mode(t, #[trigger] inc[i].labels) == ClearMode::Family
}

/// The family that merging `inc` into `cur` leaves, and the outcome.
pub open spec fn family_merge(cur: FamilyView, inc: FamilyView) -> (FamilyView, Result<(), AggregationError>) {
    if inc.name != cur.name {
        (cur, Err(AggregationError::NameMismatch))
    } else if inc.family_type != cur.family_type {
        (cur, Err(AggregationError::TypeMismatch))
    } else if requests_family_clear(inc.family_type, inc.samples) {
        (FamilyView { samples: stripped_all(inc.samples), ..inc }, Ok(()))
    } else {
        let (st, e) = apply_batch(cur.samples, cur.family_type, inc.samples);
        match e {
            Some(err) => (cur, Err(err)),
            None => (FamilyView { samples: st, ..cur }, Ok(())),
        }
    }
}

/// Family as a newly seen batch founds it: every sample stripped.
pub open spec fn founded(inc: FamilyView) -> FamilyView {
    FamilyView { samples: stripped_all(inc.samples), ..inc }
}

/// A metric family holding merged state.
pub struct AggregationFamily {
    pub base_family: MetricFamily,
}

impl View for AggregationFamily {
    type V = FamilyView;

    open spec fn view(&self) -> FamilyView {
        self.base_family@
    }
}

impl AggregationFamily {
    /// No stored sample carries the `clearmode` label.
    pub open spec fn well_formed(&self) -> bool {
        forall|i: int|
            0 <= i < self@.samples.len() ==> free_of_clearmode(#[trigger] self@.samples[i].labels)
    }

    /// Starts the state of a family from the first batch seen of it.
    pub fn new(base_family: MetricFamily) -> (r: AggregationFamily)
        ensures
            r@ == founded(base_family@),
            r.well_formed(),
    {
        let MetricFamily { name, family_type, help, unit, samples } = base_family;
        let samples = strip_samples(samples);
        AggregationFamily { base_family: MetricFamily { name, family_type, help, unit, samples } }
    }

    /// Merges `new_family` into this family, honouring and then dropping the
    /// `clearmode` label of each sample.
    pub fn merge(&mut self, new_family: MetricFamily) -> (r: Result<(), AggregationError>)
        requires
            old(self).well_formed(),
        ensures
            (final(self)@, r) == family_merge(old(self)@, new_family@),
            r is Err ==> final(self)@ == old(self)@,
            final(self).well_formed(),
    {
        if new_family.name != self.base_family.name {
            return Err(AggregationError::NameMismatch);
        }
        if new_family.family_type != self.base_family.family_type {
            return Err(AggregationError::TypeMismatch);
        }
        let ghost inc = new_family@;
        let family_type = self.base_family.family_type;
        if should_clear_family(family_type, &new_family.samples) {
            *self = AggregationFamily::new(new_family);
            return Ok(());
        }
        let ghost st0 = self@.samples;
        let mut work = copy_samples(&self.base_family.samples);
        assert forall|j: int| 0 <= j < work@.len() implies free_of_clearmode(
            #[trigger] work@[j].labels@,
        ) by {
            assert(self@.samples[j].labels == self.base_family.samples@[j].labels@);
        }
        let mut incoming = new_family.samples;
        let ghost mut i: int = 0;
        assert(inc.samples.take(0) =~= Seq::<SampleView>::empty());
        assert(samples_view(incoming@).skip(0) =~= samples_view(incoming@));
        while incoming.len() > 0
            invariant
                0 <= i <= inc.samples.len(),
                samples_view(incoming@) == inc.samples.skip(i),
                apply_batch(st0, family_type, inc.samples.take(i)) == (samples_view(work@), None::<
                    AggregationError,
                >),
                !requests_family_clear(family_type, inc.samples),
                *self == *old(self),
                family_type == old(self)@.family_type,
                st0 == old(self)@.samples,
                inc == new_family@,
                inc.name == old(self)@.name,
                inc.family_type == family_type,
                self.well_formed(),
                forall|j: int| 0 <= j < work@.len() ==> free_of_clearmode(#[trigger] work@[j].labels@),
            decreases incoming@.len(),
        {
            let ghost before = samples_view(work@);
            let ghost incoming0 = incoming@;
            let s = incoming.remove(0);
            proof {
                lemma_view_drop_first(incoming0);
                assert(incoming@ =~= incoming0.drop_first());
                assert(inc.samples.skip(i)[0] == inc.samples[i]);
                assert(inc.samples.skip(i).drop_first() =~= inc.samples.skip(i + 1));
            }
            assert(inc.samples.take(i + 1).drop_last() =~= inc.samples.take(i));
            let mode = ClearMode::from_labels(family_type, &s.labels);
            let Sample { labels, timestamp_bits, value } = s;
            proof {
                lemma_without_clearmode_is_free(labels@);
                assert(inc.samples.take(i + 1).last() == inc.samples[i]);
            }
            let key = strip_clearmode(labels);
            match find_match(&work, &key) {
                None => {
                    work.push(Sample { labels: key, timestamp_bits, value });
                    assert(samples_view(work@) =~= before.push(stripped(s@)));
                    assert forall|j: int| 0 <= j < work@.len() implies free_of_clearmode(
                        #[trigger] work@[j].labels@,
                    ) by {
                        if j < before.len() {
                            assert(samples_view(work@)[j] == before[j]);
                        }
                    }
                },
                Some(k) => {
                    assert(before[k as int] == work@[k as int]@);
                    if let Some(e) = check_merge(&work[k].value, &value) {
                        proof {
                            assert(apply_sample(before, family_type, s@) == Err::<
                                Seq<SampleView>,
                                AggregationError,
                            >(e));
                            assert(apply_batch(st0, family_type, inc.samples.take(i + 1)) == (
                                before,
                                Some(e),
                            ));
                            lemma_batch_error_sticks(st0, family_type, inc.samples, i + 1);
                        }
                        return Err(e);
                    }
                    assert(mode != ClearMode::Family);
                    let ghost old_samples = work@;
                    let mut stored = work.remove(k);
                    stored.value = merge_values(stored.value, value, mode);
                    work.insert(k, stored);
                    assert(work@ =~= old_samples.update(k as int, stored));
                    assert(samples_view(work@) =~= before.update(
                        k as int,
                        SampleView {
                            value: merged_value(before[k as int].value, s@.value, mode),
                            ..before[k as int]
                        },
                    ));
                    assert forall|j: int| 0 <= j < work@.len() implies free_of_clearmode(
                        #[trigger] work@[j].labels@,
                    ) by {
                        assert(samples_view(work@)[j].labels == before[j].labels);
                    }
                },
            }
            proof {
                i = i + 1;
            }
        }
        assert(inc.samples.take(i) =~= inc.samples);
        self.base_family.samples = work;
        assert forall|j: int| 0 <= j < self@.samples.len() implies free_of_clearmode(
            #[trigger] self@.samples[j].labels,
        ) by {
            assert(self@.samples[j].labels == self.base_family.samples@[j].labels@);
        }
        Ok(())
    }
}

/// When any sample of a batch asks for a family-wide clear, no stored sample
/// survives: the family then holds the batch's samples, stripped.
pub proof fn family_clear_discards_stored(cur: FamilyView, inc: FamilyView)
    requires
        inc.name == cur.name,
        inc.family_type == cur.family_type,
        requests_family_clear(inc.family_type, inc.samples),
    ensures
        family_merge(cur, inc).1 is Ok,
        family_merge(cur, inc).0.samples == stripped_all(inc.samples),
{
}

proof fn lemma_match_has_first(st: Seq<SampleView>, key: LabelPairSet, j: int)
    requires
        0 <= j < st.len(),
        label_set(st[j].labels) == key,
    ensures
        exists|k: int| is_first_match(st, key, k),
    decreases j,
{
    if exists|i: int| 0 <= i < j && label_set(#[trigger] st[i].labels) == key {
        let i = choose|i: int| 0 <= i < j && label_set(#[trigger] st[i].labels) == key;
        lemma_match_has_first(st, key, i);
    } else {
        assert(is_first_match(st, key, j));
    }
}

proof fn lemma_first_match_unique(st: Seq<SampleView>, key: LabelPairSet, k: int)
    requires
        is_first_match(st, key, k),
    ensures
        first_match(st, key) == Some(k),
{
    let c = choose|c: int| is_first_match(st, key, c);
    if c < k {
        assert(label_set(st[c].labels) != key);
    } else if c > k {
        assert(label_set(st[k].labels) != key);
    }
}

/// Folding the same sample twice under `Replace` leaves what folding it once
/// left. (A summary sample is left out: the second fold refuses it.)
pub proof fn replace_sample_twice_is_once(st: Seq<SampleView>, t: MetricType, s: SampleView)
    requires
        resolved_mode(t, s.labels) == ClearMode::Replace,
        !(s.value is Summary),
        apply_sample(st, t, s) is Ok,
    ensures
        apply_sample(apply_sample(st, t, s)->Ok_0, t, s) == apply_sample(st, t, s),
{
    let key = label_set(without_clearmode(s.labels));
    let st1 = apply_sample(st, t, s)->Ok_0;
    match first_match(st, key) {
        None => {
            let n = st.len() as int;
            assert(st1 == st.push(stripped(s)));
            assert forall|j: int| 0 <= j < n implies label_set(#[trigger] st1[j].labels) != key by {
                assert(st1[j] == st[j]);
                if label_set(st[j].labels) == key {
                    lemma_match_has_first(st, key, j);
                }
            }
            assert(is_first_match(st1, key, n));
            lemma_first_match_unique(st1, key, n);
            replace_twice_is_replace_once(s.value, s.value);
            assert(merged_value(s.value, s.value, ClearMode::Replace) == s.value);
            assert(st1.update(n, SampleView { value: s.value, ..st1[n] }) =~= st1);
        },
        Some(k) => {
            let m = merged_value(st[k].value, s.value, ClearMode::Replace);
            assert(is_first_match(st, key, k));
            assert forall|j: int| 0 <= j < st1.len() implies (#[trigger] st1[j]).labels
                == st[j].labels by {}
            assert(is_first_match(st1, key, k));
            lemma_first_match_unique(st1, key, k);
            replace_twice_is_replace_once(st[k].value, s.value);
            assert(st1.update(k, SampleView { value: m, ..st1[k] }) =~= st1);
        },
    }
}

/// The label set that identifies an incoming sample in the stored state.
pub open spec fn batch_key(s: SampleView) -> LabelPairSet {
    label_set(without_clearmode(s.labels))
}

/// No two samples of the batch share a label set once `clearmode` is left out.
pub open spec fn distinct_keys(inc: Seq<SampleView>) -> bool {
    forall|i: int, j: int| 0 <= i < j < inc.len() ==> batch_key(inc[i]) != batch_key(inc[j])
}

/// Every sample of the batch resolves to `Replace` and is no summary.
pub open spec fn all_replace(t: MetricType, inc: Seq<SampleView>) -> bool {
    forall|i: int|
        0 <= i < inc.len() ==> resolved_mode(t, #[trigger] inc[i].labels) == ClearMode::Replace
            && !(inc[i].value is Summary)
}

spec fn replaced_by(x: ValueView, v: ValueView) -> bool {
    exists|y: ValueView| merge_error(y, v) is None && x == merged_value(y, v, ClearMode::Replace)
}

spec fn holds_replaced(st: Seq<SampleView>, inc: Seq<SampleView>, n: int) -> bool {
    forall|j: int|
        0 <= j < n ==> {
            &&& (#[trigger] first_match(st, batch_key(inc[j]))) is Some
            &&& replaced_by(st[first_match(st, batch_key(inc[j]))->Some_0].value, inc[j].value)
        }
}

proof fn lemma_replace_self(v: ValueView)
    requires
        !(v is Summary),
    ensures
        merge_error(v, v) is None,
        merged_value(v, v, ClearMode::Replace) == v,
{
}

proof fn lemma_first_pass(st0: Seq<SampleView>, t: MetricType, inc: Seq<SampleView>, n: int)
    requires
        0 <= n <= inc.len(),
        all_replace(t, inc),
        distinct_keys(inc),
        apply_batch(st0, t, inc.take(n)).1 is None,
    ensures
        holds_replaced(apply_batch(st0, t, inc.take(n)).0, inc, n),
    decreases n,
{
    if n > 0 {
        let m = n - 1;
        assert(inc.take(n).drop_last() =~= inc.take(m));
        assert(inc.take(n).last() == inc[m]);
        let st = apply_batch(st0, t, inc.take(m)).0;
        lemma_first_pass(st0, t, inc, m);
        let s = inc[m];
        let key = batch_key(s);
        let st2 = apply_sample(st, t, s)->Ok_0;
        assert(apply_batch(st0, t, inc.take(n)).0 == st2);
        assert(all_replace(t, inc) ==> !(inc[m].value is Summary));
        match first_match(st, key) {
            None => {
                let len = st.len() as int;
                assert(st2 == st.push(stripped(s)));
                assert forall|j: int| 0 <= j < len implies label_set(#[trigger] st2[j].labels)
                    != key by {
                    assert(st2[j] == st[j]);
                    if label_set(st[j].labels) == key {
                        lemma_match_has_first(st, key, j);
                    }
                }
                assert(is_first_match(st2, key, len));
                lemma_first_match_unique(st2, key, len);
                lemma_replace_self(s.value);
                assert(merge_error(s.value, s.value) is None && st2[len].value == merged_value(
                    s.value,
                    s.value,
                    ClearMode::Replace,
                ));
                assert forall|j: int| 0 <= j < n implies {
                    &&& (#[trigger] first_match(st2, batch_key(inc[j]))) is Some
                    &&& replaced_by(
                        st2[first_match(st2, batch_key(inc[j]))->Some_0].value,
                        inc[j].value,
                    )
                } by {
                    if j < m {
                        let kj = first_match(st, batch_key(inc[j]))->Some_0;
                        assert(is_first_match(st, batch_key(inc[j]), kj));
                        assert(is_first_match(st2, batch_key(inc[j]), kj));
                        lemma_first_match_unique(st2, batch_key(inc[j]), kj);
                    }
                }
            },
            Some(k) => {
                assert(is_first_match(st, key, k));
                let x = st[k].value;
                assert(merge_error(x, s.value) is None);
                assert(st2 == st.update(
                    k,
                    SampleView { value: merged_value(x, s.value, ClearMode::Replace), ..st[k] },
                ));
                assert(is_first_match(st2, key, k));
                lemma_first_match_unique(st2, key, k);
                assert forall|j: int| 0 <= j < n implies {
                    &&& (#[trigger] first_match(st2, batch_key(inc[j]))) is Some
                    &&& replaced_by(
                        st2[first_match(st2, batch_key(inc[j]))->Some_0].value,
                        inc[j].value,
                    )
                } by {
                    if j < m {
                        let kj = first_match(st, batch_key(inc[j]))->Some_0;
                        assert(is_first_match(st, batch_key(inc[j]), kj));
                        assert(batch_key(inc[j]) != key);
                        assert(kj != k);
                        assert(is_first_match(st2, batch_key(inc[j]), kj));
                        lemma_first_match_unique(st2, batch_key(inc[j]), kj);
                        assert(st2[kj] == st[kj]);
                    }
                }
            },
        }
    }
}

proof fn lemma_second_pass(st1: Seq<SampleView>, t: MetricType, inc: Seq<SampleView>, n: int)
    requires
        0 <= n <= inc.len(),
        all_replace(t, inc),
        holds_replaced(st1, inc, inc.len() as int),
    ensures
        apply_batch(st1, t, inc.take(n)) == (st1, None::<AggregationError>),
    decreases n,
{
    if n == 0 {
        assert(inc.take(0) =~= Seq::<SampleView>::empty());
    } else {
        let m = n - 1;
        assert(inc.take(n).drop_last() =~= inc.take(m));
        assert(inc.take(n).last() == inc[m]);
        lemma_second_pass(st1, t, inc, m);
        let s = inc[m];
        assert(first_match(st1, batch_key(s)) is Some);
        let k = first_match(st1, batch_key(s))->Some_0;
        let x = st1[k].value;
        assert(replaced_by(x, s.value));
        let y = choose|y: ValueView|
            merge_error(y, s.value) is None && x == merged_value(y, s.value, ClearMode::Replace);
        replace_twice_is_replace_once(y, s.value);
        assert(resolved_mode(t, s.labels) == ClearMode::Replace);
        assert(st1.update(k, SampleView { value: x, ..st1[k] }) =~= st1);
    }
}

/// Merging the same batch a second time, when every sample resolves to
/// `Replace` and no two samples share a label set, leaves the family as the
/// first merge left it.
pub proof fn replace_batch_twice_is_once(cur: FamilyView, inc: FamilyView)
    requires
        inc.name == cur.name,
        inc.family_type == cur.family_type,
        all_replace(cur.family_type, inc.samples),
        distinct_keys(inc.samples),
        family_merge(cur, inc).1 is Ok,
    ensures
        family_merge(family_merge(cur, inc).0, inc) == family_merge(cur, inc),
{
    let t = cur.family_type;
    assert(!requests_family_clear(t, inc.samples)) by {
        if requests_family_clear(t, inc.samples) {
            let i = choose|i: int|
                0 <= i < inc.samples.len() && resolved_mode(t, #[trigger] inc.samples[i].labels)
                    == ClearMode::Family;
            assert(resolved_mode(t, inc.samples[i].labels) == ClearMode::Replace);
        }
    }
    let len = inc.samples.len() as int;
    assert(inc.samples.take(len) =~= inc.samples);
    lemma_first_pass(cur.samples, t, inc.samples, len);
    let st1 = apply_batch(cur.samples, t, inc.samples).0;
    lemma_second_pass(st1, t, inc.samples, len);
}

/// Two batches whose samples agree once `clearmode` is left out, and resolve
/// to the same modes, merge alike.
pub proof fn alike_batches_merge_alike(cur: FamilyView, inc1: FamilyView, inc2: FamilyView)
    requires
        inc1.name == inc2.name,
        inc1.family_type == inc2.family_type,
        inc1.help == inc2.help,
        inc1.unit == inc2.unit,
        inc1.samples.len() == inc2.samples.len(),
        forall|i: int|
            0 <= i < inc1.samples.len() ==> stripped(#[trigger] inc1.samples[i]) == stripped(
                inc2.samples[i],
            ) && resolved_mode(inc1.family_type, inc1.samples[i].labels) == resolved_mode(
                inc1.family_type,
                inc2.samples[i].labels,
            ),
    ensures
        family_merge(cur, inc1) == family_merge(cur, inc2),
{
    let t = inc1.family_type;
    assert(requests_family_clear(t, inc1.samples) == requests_family_clear(t, inc2.samples)) by {
        if requests_family_clear(t, inc1.samples) {
            let i = choose|i: int|
                0 <= i < inc1.samples.len() && resolved_mode(t, #[trigger] inc1.samples[i].labels)
                    == ClearMode::Family;
            assert(resolved_mode(t, inc2.samples[i].labels) == ClearMode::Family);
        }
        if requests_family_clear(t, inc2.samples) {
            let i = choose|i: int|
                0 <= i < inc2.samples.len() && resolved_mode(t, #[trigger] inc2.samples[i].labels)
                    == ClearMode::Family;
            assert(stripped(inc1.samples[i]) == stripped(inc2.samples[i]));
        }
    }
    assert(stripped_all(inc1.samples) =~= stripped_all(inc2.samples)) by {
        assert forall|i: int| 0 <= i < inc1.samples.len() implies stripped_all(inc1.samples)[i]
            == stripped_all(inc2.samples)[i] by {
            assert(stripped(inc1.samples[i]) == stripped(inc2.samples[i]));
        }
    }
    if t == cur.family_type {
        lemma_alike_batches(cur.samples, t, inc1.samples, inc2.samples);
    }
}

proof fn lemma_alike_batches(
    st: Seq<SampleView>,
    t: MetricType,
    inc1: Seq<SampleView>,
    inc2: Seq<SampleView>,
)
    requires
        inc1.len() == inc2.len(),
        forall|i: int|
            0 <= i < inc1.len() ==> stripped(#[trigger] inc1[i]) == stripped(inc2[i])
                && resolved_mode(t, inc1[i].labels) == resolved_mode(t, inc2[i].labels),
    ensures
        apply_batch(st, t, inc1) == apply_batch(st, t, inc2),
    decreases inc1.len(),
{
    if inc1.len() > 0 {
        let n = inc1.len() - 1;
        assert forall|i: int| 0 <= i < inc1.drop_last().len() implies stripped(
            #[trigger] inc1.drop_last()[i],
        ) == stripped(inc2.drop_last()[i]) && resolved_mode(t, inc1.drop_last()[i].labels)
            == resolved_mode(t, inc2.drop_last()[i].labels) by {
            assert(stripped(inc1[i]) == stripped(inc2[i]));
        }
        lemma_alike_batches(st, t, inc1.drop_last(), inc2.drop_last());
        let (a, b) = (inc1[n], inc2[n]);
        assert(stripped(a) == stripped(b));
        assert(without_clearmode(a.labels) == without_clearmode(b.labels));
        assert(a.value == b.value);
    }
}

/// A `clearmode` value that names no mode changes nothing: the batch merges
/// as the one where that sample carries no `clearmode` label.
pub proof fn unknown_clearmode_merges_as_absent(
    cur: FamilyView,
    inc1: FamilyView,
    inc2: FamilyView,
    i: int,
)
    requires
        inc1.name == inc2.name,
        inc1.family_type == inc2.family_type,
        inc1.help == inc2.help,
        inc1.unit == inc2.unit,
        0 <= i < inc1.samples.len(),
        inc2.samples == inc1.samples.update(i, stripped(inc1.samples[i])),
        label_value(inc1.samples[i].labels, clearmode_key()) is Some,
        mode_named(label_value(inc1.samples[i].labels, clearmode_key())->Some_0) is None,
    ensures
        family_merge(cur, inc1) == family_merge(cur, inc2),
{
    let t = inc1.family_type;
    unknown_clearmode_falls_back(t, inc1.samples[i].labels);
    lemma_without_clearmode_idempotent(inc1.samples[i].labels);
    assert forall|j: int| 0 <= j < inc1.samples.len() implies stripped(
        #[trigger] inc1.samples[j],
    ) == stripped(inc2.samples[j]) && resolved_mode(t, inc1.samples[j].labels) == resolved_mode(
        t,
        inc2.samples[j].labels,
    ) by {}
    alike_batches_merge_alike(cur, inc1, inc2);
}

proof fn lemma_without_clearmode_idempotent(ls: Seq<Label>)
    ensures
        without_clearmode(without_clearmode(ls)) == without_clearmode(ls),
    decreases ls.len(),
{
    if ls.len() > 0 {
        lemma_without_clearmode_idempotent(ls.drop_first());
        if ls[0].name@ != clearmode_key() {
            let r = without_clearmode(ls.drop_first());
            let s = seq![ls[0]] + r;
            assert(s.drop_first() =~= r);
        }
    }
}

proof fn lemma_view_drop_first(v: Seq<Sample>)
    requires
        v.len() > 0,
    ensures
        samples_view(v)[0] == v[0]@,
        samples_view(v.drop_first()) == samples_view(v).drop_first(),
{
    assert(samples_view(v.drop_first()) =~= samples_view(v).drop_first());
}

proof fn lemma_batch_error_sticks(st: Seq<SampleView>, t: MetricType, inc: Seq<SampleView>, n: int)
    requires
        0 <= n <= inc.len(),
        apply_batch(st, t, inc.take(n)).1 is Some,
    ensures
        apply_batch(st, t, inc) == apply_batch(st, t, inc.take(n)),
    decreases inc.len() - n,
{
    if n < inc.len() {
        assert(inc.take(n + 1).drop_last() =~= inc.take(n));
        lemma_batch_error_sticks(st, t, inc, n + 1);
    } else {
        assert(inc.take(n) =~= inc);
    }
}

/// Whether some sample of the batch resolves to the `Family` mode.
fn should_clear_family(family_type: MetricType, samples: &Vec<Sample>) -> (r: bool)
    ensures
        r == requests_family_clear(family_type, samples_view(samples@)),
{
    let mut i: usize = 0;
    while i < samples.len()
        invariant
            i <= samples@.len(),
            forall|j: int|
                0 <= j < i ==> resolved_mode(family_type, #[trigger] samples@[j].labels@)
                    != ClearMode::Family,
        decreases samples@.len() - i,
    {
        if ClearMode::from_labels(family_type, &samples[i].labels) == ClearMode::Family {
            assert(samples_view(samples@)[i as int].labels == samples@[i as int].labels@);
            return true;
        }
        i += 1;
    }
    assert forall|j: int| 0 <= j < samples_view(samples@).len() implies resolved_mode(
        family_type,
        #[trigger] samples_view(samples@)[j].labels,
    ) != ClearMode::Family by {
        assert(samples_view(samples@)[j].labels == samples@[j].labels@);
    }
    false
}

/// Index of the first sample whose label set equals `key`'s.
fn find_match(samples: &Vec<Sample>, key: &Vec<Label>) -> (r: Option<usize>)
    ensures
        match r {
            Some(k) => first_match(samples_view(samples@), label_set(key@)) == Some(k as int),
            None => first_match(samples_view(samples@), label_set(key@)) is None,
        },
{
    let ghost sv = samples_view(samples@);
    let ghost ks = label_set(key@);
    let mut i: usize = 0;
    while i < samples.len()
        invariant
            i <= samples@.len(),
            sv == samples_view(samples@),
            ks == label_set(key@),
            forall|j: int| 0 <= j < i ==> label_set(#[trigger] sv[j].labels) != ks,
        decreases samples@.len() - i,
    {
        if same_label_set(&samples[i].labels, key) {
            assert(is_first_match(sv, ks, i as int));
            let ghost k = choose|k: int| is_first_match(sv, ks, k);
            assert(k == i) by {
                if k < i {
                    assert(label_set(sv[k].labels) != ks);
                } else if k > i {
                    assert(label_set(sv[i as int].labels) != ks);
                }
            }
            return Some(i);
        }
        assert(sv[i as int].labels == samples@[i as int].labels@);
        i += 1;
    }
    assert(!exists|k: int| is_first_match(sv, ks, k)) by {
        if exists|k: int| is_first_match(sv, ks, k) {
            let k = choose|k: int| is_first_match(sv, ks, k);
            assert(label_set(sv[k].labels) != ks);
        }
    }
    None
}

/// Drops the `clearmode` label of every sample.
fn strip_samples(samples: Vec<Sample>) -> (r: Vec<Sample>)
    ensures
        samples_view(r@) == stripped_all(samples_view(samples@)),
        forall|i: int| 0 <= i < r@.len() ==> free_of_clearmode(#[trigger] r@[i].labels@),
{
    let mut rest = samples;
    let mut out: Vec<Sample> = Vec::new();
    let ghost all = samples_view(samples@);
    let ghost mut i: int = 0;
    while rest.len() > 0
        invariant
            0 <= i <= all.len(),
            samples_view(rest@) == all.skip(i),
            samples_view(out@) == stripped_all(all.take(i)),
            forall|j: int| 0 <= j < out@.len() ==> free_of_clearmode(#[trigger] out@[j].labels@),
        decreases rest@.len(),
    {
        let ghost out0 = out@;
        let ghost rest0 = rest@;
        let s = rest.remove(0);
        proof {
            lemma_view_drop_first(rest0);
            assert(rest@ =~= rest0.drop_first());
            assert(all.skip(i)[0] == all[i]);
            assert(all.skip(i).drop_first() =~= all.skip(i + 1));
        }
        let Sample { labels, timestamp_bits, value } = s;
        proof {
            lemma_without_clearmode_is_free(labels@);
        }
        let labels = strip_clearmode(labels);
        out.push(Sample { labels, timestamp_bits, value });
        assert forall|j: int| 0 <= j < out@.len() implies free_of_clearmode(
            #[trigger] out@[j].labels@,
        ) by {
            if j < out0.len() {
                assert(out@[j] == out0[j]);
            }
        }
        assert(samples_view(out@) =~= stripped_all(all.take(i + 1))) by {
            assert(samples_view(out@) =~= samples_view(out0).push(stripped(s@)));
            assert(all.take(i + 1) =~= all.take(i).push(all[i]));
        }
        proof {
            i = i + 1;
        }
    }
    assert(all.take(i) =~= all);
    out
}

} // verus!
