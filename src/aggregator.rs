//! The set of all merged families, keyed by family name.
use vstd::prelude::*;
use crate::error::AggregationError;
use crate::family::{AggregationFamily, family_merge, founded};
use crate::model::{FamilyView, MetricFamily};

verus! {

pub open spec fn is_first_named(st: Seq<FamilyView>, name: Seq<char>, k: int) -> bool {
    &&& 0 <= k < st.len()
    &&& st[k].name == name
    &&& forall|j: int| 0 <= j < k ==> (#[trigger] st[j]).name != name
}

/// Index of the stored family called `name`.
pub open spec fn family_named(st: Seq<FamilyView>, name: Seq<char>) -> Option<int> {
    if exists|k: int| is_first_named(st, name, k) {
        Some(choose|k: int| is_first_named(st, name, k))
    } else {
        None
    }
}

/// Folds one incoming family into the stored ones: merged into the family of
/// its name, or added as a new family.
pub open spec fn ingest_family(st: Seq<FamilyView>, f: FamilyView) -> (Seq<FamilyView>, Option<
    AggregationError,
>) {
    match family_named(st, f.name) {
        None => (st.push(founded(f)), None),
        Some(k) => {
            let (merged, r) = family_merge(st[k], f);
            (
                st.update(k, merged),
                match r {
                    Ok(_) => None,
                    Err(e) => Some(e),
                },
            )
        },
    }
}

/// Folds a batch of families in order, stopping at the first error.
pub open spec fn ingest_batch(st: Seq<FamilyView>, fs: Seq<FamilyView>) -> (Seq<FamilyView>, Option<
    AggregationError,
>)
    decreases fs.len(),
{
    if fs.len() == 0 {
        (st, None)
    } else {
        let (mid, e) = ingest_batch(st, fs.drop_last());
        if e is Some {
            (mid, e)
        } else {
            ingest_family(mid, fs.last())
        }
    }
}

pub open spec fn families_view(fs: Seq<MetricFamily>) -> Seq<FamilyView> {
    fs.map_values(|f: MetricFamily| f@)
}

/// All families merged so far.
pub struct Aggregator {
    pub families: Vec<AggregationFamily>,
}

impl View for Aggregator {
    type V = Seq<FamilyView>;

    open spec fn view(&self) -> Seq<FamilyView> {
        self.families@.map_values(|f: AggregationFamily| f@)
    }
}

impl Aggregator {
    /// Family names are distinct and every family is well formed.
    pub open spec fn well_formed(&self) -> bool {
        &&& forall|i: int, j: int|
            0 <= i < j < self@.len() ==> (#[trigger] self@[i]).name != (#[trigger] self@[j]).name
        &&& forall|i: int|
            0 <= i < self.families@.len() ==> (#[trigger] self.families@[i]).well_formed()
    }

    pub fn new() -> (r: Aggregator)
        ensures
            r@ == Seq::<FamilyView>::empty(),
            r.well_formed(),
    {
        let r = Aggregator { families: Vec::new() };
        assert(r@ =~= Seq::<FamilyView>::empty());
        r
    }

    /// Merges a decoded batch of families, one after the other. An error
    /// stops the batch: families merged before it keep their new state.
    pub fn merge_families(&mut self, batch: Vec<MetricFamily>) -> (r: Result<(), AggregationError>)
        requires
            old(self).well_formed(),
        ensures
            final(self).well_formed(),
            ({
                let (st, e) = ingest_batch(old(self)@, families_view(batch@));
                &&& final(self)@ == st
                &&& match e {
                    Some(err) => r == Err::<(), AggregationError>(err),
                    None => r is Ok,
                }
            }),
    {
        let ghost all = families_view(batch@);
        let ghost st0 = self@;
        let mut rest = batch;
        let ghost mut i: int = 0;
        assert(all.take(0) =~= Seq::<FamilyView>::empty());
        assert(families_view(rest@) =~= all.skip(0));
        while rest.len() > 0
            invariant
                0 <= i <= all.len(),
                all == families_view(batch@),
                st0 == old(self)@,
                families_view(rest@) == all.skip(i),
                ingest_batch(st0, all.take(i)) == (self@, None::<AggregationError>),
                self.well_formed(),
            decreases rest@.len(),
        {
            let ghost before = self@;
            let ghost rest0 = rest@;
            let f = rest.remove(0);
            proof {
                assert(families_view(rest0)[0] == f@);
                assert(families_view(rest@) =~= families_view(rest0).drop_first());
                assert(all.skip(i)[0] == all[i]);
                assert(all.skip(i).drop_first() =~= all.skip(i + 1));
                assert(all.take(i + 1).drop_last() =~= all.take(i));
                assert(all.take(i + 1).last() == all[i]);
            }
            let ghost fv = f@;
            match self.find_family(&f.name) {
                None => {
                    let ghost old_families = self.families@;
                    self.families.push(AggregationFamily::new(f));
                    assert(self@ =~= before.push(founded(fv)));
                    assert forall|a: int, b: int|
                        0 <= a < b < self@.len() implies (#[trigger] self@[a]).name != (
                        #[trigger] self@[b]).name by {
                        if b == before.len() {
                            assert(!is_first_named(before, fv.name, a));
                        } else {
                            assert(self@[a] == before[a] && self@[b] == before[b]);
                        }
                    }
                    assert forall|a: int| 0 <= a < self.families@.len() implies (
                    #[trigger] self.families@[a]).well_formed() by {
                        if a < old_families.len() {
                            assert(self.families@[a] == old_families[a]);
                        }
                    }
                },
                Some(k) => {
                    let ghost old_families = self.families@;
                    let mut fam = self.families.remove(k);
                    assert(fam == old_families[k as int]);
                    assert(fam@ == before[k as int]);
                    let ghost fam0 = fam@;
                    let res = fam.merge(f);
                    self.families.insert(k, fam);
                    assert(self.families@ =~= old_families.update(k as int, fam));
                    assert(self@ =~= before.update(k as int, fam@));
                    assert(fam@.name == before[k as int].name);
                    assert forall|a: int, b: int|
                        0 <= a < b < self@.len() implies (#[trigger] self@[a]).name != (
                        #[trigger] self@[b]).name by {
                        assert(self@[a].name == before[a].name);
                        assert(self@[b].name == before[b].name);
                    }
                    assert forall|a: int| 0 <= a < self.families@.len() implies (
                    #[trigger] self.families@[a]).well_formed() by {
                        if a != k {
                            assert(self.families@[a] == old_families[a]);
                        }
                    }
                    if let Err(e) = res {
                        proof {
                            assert(family_merge(fam0, fv) == (fam@, res));
                            assert(ingest_family(before, fv) == (self@, Some(e)));
                            assert(ingest_batch(st0, all.take(i + 1)) == (self@, Some(e)));
                            lemma_ingest_error_sticks(st0, all, i + 1);
                        }
                        return Err(e);
                    }
                },
            }
            proof {
                i = i + 1;
            }
        }
        assert(all.take(i) =~= all);
        Ok(())
    }

    /// Index of the family called `name`.
    fn find_family(&self, name: &String) -> (r: Option<usize>)
        requires
            self.well_formed(),
        ensures
            match r {
                Some(k) => family_named(self@, name@) == Some(k as int),
                None => family_named(self@, name@) is None,
            },
    {
        let ghost st = self@;
        let mut i: usize = 0;
        while i < self.families.len()
            invariant
                i <= self.families@.len(),
                st == self@,
                forall|j: int| 0 <= j < i ==> (#[trigger] st[j]).name != name@,
            decreases self.families@.len() - i,
        {
            assert(st[i as int] == self.families@[i as int]@);
            if self.families[i].base_family.name == *name {
                assert(is_first_named(st, name@, i as int));
                let ghost k = choose|k: int| is_first_named(st, name@, k);
                assert(k == i) by {
                    if k < i {
                        assert(st[k].name != name@);
                    } else if k > i {
                        assert(st[i as int].name != name@);
                    }
                }
                return Some(i);
            }
            i += 1;
        }
        assert(!exists|k: int| is_first_named(st, name@, k)) by {
            if exists|k: int| is_first_named(st, name@, k) {
                let k = choose|k: int| is_first_named(st, name@, k);
                assert(st[k].name != name@);
            }
        }
        None
    }

    /// The merged families, in the order they were first seen.
    pub fn render(&self) -> (r: Vec<&MetricFamily>)
        ensures
            r@.len() == self@.len(),
            forall|i: int| 0 <= i < r@.len() ==> (#[trigger] r@[i])@ == self@[i],
    {
        let mut out: Vec<&MetricFamily> = Vec::new();
        let mut i: usize = 0;
        while i < self.families.len()
            invariant
                i <= self.families@.len(),
                out@.len() == i,
                forall|j: int| 0 <= j < i ==> (#[trigger] out@[j])@ == self@[j],
            decreases self.families@.len() - i,
        {
            out.push(&self.families[i].base_family);
            i += 1;
        }
        out
    }
}

/// A batch whose second family fails the schema check keeps the state that
/// merging its first family produced.
pub proof fn failed_family_keeps_earlier(st: Seq<FamilyView>, first: FamilyView, second: FamilyView)
    requires
        ingest_family(st, first).1 is None,
        family_named(ingest_family(st, first).0, second.name) is Some,
        ingest_family(st, first).0[family_named(ingest_family(st, first).0, second.name)->Some_0].family_type
            != second.family_type,
    ensures
        ingest_batch(st, seq![first, second]) == (
            ingest_family(st, first).0,
            Some(AggregationError::TypeMismatch),
        ),
{
    let fs = seq![first, second];
    assert(fs.drop_last() =~= seq![first]);
    assert(seq![first].drop_last() =~= Seq::<FamilyView>::empty());
    let mid = ingest_family(st, first).0;
    let k = family_named(mid, second.name)->Some_0;
    assert(is_first_named(mid, second.name, k));
    assert(family_merge(mid[k], second) == (mid[k], Err::<(), AggregationError>(
        AggregationError::TypeMismatch,
    )));
    assert(mid.update(k, mid[k]) =~= mid);
    assert(seq![first].last() == first);
    assert(ingest_batch(st, Seq::<FamilyView>::empty()) == (st, None::<AggregationError>));
    assert(ingest_batch(st, seq![first]) == ingest_family(st, first));
    assert(fs.last() == second);
}

proof fn lemma_ingest_error_sticks(st: Seq<FamilyView>, fs: Seq<FamilyView>, n: int)
    requires
        0 <= n <= fs.len(),
        ingest_batch(st, fs.take(n)).1 is Some,
    ensures
        ingest_batch(st, fs) == ingest_batch(st, fs.take(n)),
    decreases fs.len() - n,
{
    if n < fs.len() {
        assert(fs.take(n + 1).drop_last() =~= fs.take(n));
        lemma_ingest_error_sticks(st, fs, n + 1);
    } else {
        assert(fs.take(n) =~= fs);
    }
}

} // verus!
