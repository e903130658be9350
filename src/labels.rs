//! Label sets: name/value pairs that identify a sample within its family.
use vstd::prelude::*;

verus! {

/// Name of the reserved label that carries the merge policy of a sample.
pub const CLEARMODE_LABEL_NAME: &'static str = "clearmode";

pub struct Label {
    pub name: String,
    pub value: String,
}

pub open spec fn clearmode_key() -> Seq<char> {
    CLEARMODE_LABEL_NAME@
}

pub open spec fn label_pair(l: Label) -> (Seq<char>, Seq<char>) {
    (l.name@, l.value@)
}

pub open spec fn label_pairs(ls: Seq<Label>) -> Seq<(Seq<char>, Seq<char>)> {
    ls.map_values(|l: Label| label_pair(l))
}

/// A label set compares as a set of pairs: order does not matter.
pub open spec fn label_set(ls: Seq<Label>) -> Set<(Seq<char>, Seq<char>)> {
    label_pairs(ls).to_set()
}

/// Value of the first label called `name`, if any.
pub open spec fn label_value(ls: Seq<Label>, name: Seq<char>) -> Option<Seq<char>>
    decreases ls.len(),
{
    if ls.len() == 0 {
        None
    } else if ls[0].name@ == name {
        Some(ls[0].value@)
    } else {
        label_value(ls.drop_first(), name)
    }
}

/// The labels with every `clearmode` label left out, in their order.
pub open spec fn without_clearmode(ls: Seq<Label>) -> Seq<Label>
    decreases ls.len(),
{
    if ls.len() == 0 {
        ls
    } else if ls[0].name@ == clearmode_key() {
        without_clearmode(ls.drop_first())
    } else {
        seq![ls[0]] + without_clearmode(ls.drop_first())
    }
}

/// A copy of a label list.
pub fn copy_labels(ls: &Vec<Label>) -> (r: Vec<Label>)
    ensures
        r@ == ls@,
{
    let mut out: Vec<Label> = Vec::new();
    let mut i: usize = 0;
    while i < ls.len()
        invariant
            i <= ls@.len(),
            out@ == ls@.take(i as int),
        decreases ls@.len() - i,
    {
        out.push(Label { name: ls[i].name.clone(), value: ls[i].value.clone() });
        assert(ls@.take(i + 1) =~= ls@.take(i as int).push(ls@[i as int]));
        i += 1;
    }
    assert(ls@.take(ls@.len() as int) =~= ls@);
    out
}

pub fn clearmode_name() -> (r: String)
    ensures
        r@ == clearmode_key(),
{
    CLEARMODE_LABEL_NAME.to_owned()
}

/// Looks up the value of the first label called `name`.
pub fn get_label_value<'a>(ls: &'a Vec<Label>, name: &String) -> (r: Option<&'a String>)
    ensures
        match r {
            Some(v) => label_value(ls@, name@) == Some(v@),
            None => label_value(ls@, name@) is None,
        },
{
    let mut i: usize = 0;
    assert(ls@.subrange(0, ls@.len() as int) =~= ls@);
    while i < ls.len()
        invariant
            i <= ls@.len(),
            label_value(ls@, name@) == label_value(ls@.subrange(i as int, ls@.len() as int), name@),
        decreases ls@.len() - i,
    {
        let ghost rest = ls@.subrange(i as int, ls@.len() as int);
        assert(rest.drop_first() =~= ls@.subrange(i + 1, ls@.len() as int));
        assert(rest[0] == ls@[i as int]);
        if ls[i].name == *name {
            return Some(&ls[i].value);
        }
        i += 1;
    }
    None
}

/// Removes every `clearmode` label, keeping the others in order.
pub fn strip_clearmode(ls: Vec<Label>) -> (r: Vec<Label>)
    ensures
        r@ == without_clearmode(ls@),
{
    let key = clearmode_name();
    let mut rest = ls;
    let mut out: Vec<Label> = Vec::new();
    while rest.len() > 0
        invariant
            key@ == clearmode_key(),
            without_clearmode(ls@) == out@ + without_clearmode(rest@),
        decreases rest@.len(),
    {
        let ghost before = rest@;
        let l = rest.remove(0);
        assert(before.drop_first() =~= rest@);
        assert(before[0] == l);
        if l.name != key {
            let ghost out0 = out@;
            out.push(l);
            assert(without_clearmode(before) == seq![l] + without_clearmode(rest@));
            assert(out@ =~= out0 + seq![l]);
            assert(out0 + (seq![l] + without_clearmode(rest@)) =~= out@ + without_clearmode(rest@));
        } else {
            assert(without_clearmode(before) == without_clearmode(rest@));
        }
    }
    assert(without_clearmode(rest@) =~= Seq::<Label>::empty());
    assert(out@ + Seq::<Label>::empty() =~= out@);
    out
}

/// Whether `ls` holds a label with the same name and value as `l`.
pub fn contains_label(ls: &Vec<Label>, l: &Label) -> (r: bool)
    ensures
        r == label_set(ls@).contains(label_pair(*l)),
{
    let mut i: usize = 0;
    while i < ls.len()
        invariant
            i <= ls@.len(),
            forall|j: int| 0 <= j < i ==> label_pair(#[trigger] ls@[j]) != label_pair(*l),
        decreases ls@.len() - i,
    {
        if ls[i].name == l.name && ls[i].value == l.value {
            assert(label_pairs(ls@)[i as int] == label_pair(*l));
            return true;
        }
        i += 1;
    }
    assert(!label_pairs(ls@).contains(label_pair(*l))) by {
        if label_pairs(ls@).contains(label_pair(*l)) {
            let k = choose|k: int| 0 <= k < label_pairs(ls@).len() && label_pairs(ls@)[k] == label_pair(*l);
            assert(label_pair(ls@[k]) != label_pair(*l));
        }
    }
    false
}

/// Whether every label of `a` occurs in `b`.
fn labels_included(a: &Vec<Label>, b: &Vec<Label>) -> (r: bool)
    ensures
        r == label_set(a@).subset_of(label_set(b@)),
{
    let mut i: usize = 0;
    while i < a.len()
        invariant
            i <= a@.len(),
            forall|j: int| 0 <= j < i ==> label_set(b@).contains(label_pair(#[trigger] a@[j])),
        decreases a@.len() - i,
    {
        if !contains_label(b, &a[i]) {
            assert(label_pairs(a@)[i as int] == label_pair(a@[i as int]));
            assert(label_set(a@).contains(label_pair(a@[i as int])));
            return false;
        }
        i += 1;
    }
    assert forall|p| label_set(a@).contains(p) implies label_set(b@).contains(p) by {
        let k = choose|k: int| 0 <= k < label_pairs(a@).len() && label_pairs(a@)[k] == p;
        assert(label_pair(a@[k]) == p);
    }
    true
}

/// Whether two label sets hold the same pairs, in whatever order.
pub fn same_label_set(a: &Vec<Label>, b: &Vec<Label>) -> (r: bool)
    ensures
        r == (label_set(a@) == label_set(b@)),
{
    let ab = labels_included(a, b);
    let ba = labels_included(b, a);
    if ab && ba {
        assert(label_set(a@) =~= label_set(b@));
    }
    ab && ba
}

} // verus!
