//! The merge policy of an incoming sample.
use vstd::prelude::*;
use crate::labels::{Label, clearmode_key, clearmode_name, get_label_value, label_value, without_clearmode};
use crate::model::MetricType;

verus! {

#[derive(Clone, Copy, Debug, PartialEq, Eq, Structural)]
pub enum ClearMode {
    /// Combine the stored value with the incoming one.
    Aggregate,
    /// The incoming value supersedes the stored one.
    Replace,
    /// Drop every stored sample of the family and adopt the incoming batch.
    Family,
}

pub open spec fn default_mode(t: MetricType) -> ClearMode {
    match t {
        MetricType::Gauge => ClearMode::Replace,
        _ => ClearMode::Aggregate,
    }
}

pub open spec fn mode_named(s: Seq<char>) -> Option<ClearMode> {
    if s == "aggregate"@ {
        Some(ClearMode::Aggregate)
    } else if s == "replace"@ {
        Some(ClearMode::Replace)
    } else if s == "family"@ {
        Some(ClearMode::Family)
    } else {
        None
    }
}

/// The effective mode of a sample with labels `ls` in a family of type `t`:
/// its `clearmode` label when that names a mode, the type's default otherwise.
pub open spec fn resolved_mode(t: MetricType, ls: Seq<Label>) -> ClearMode {
    match label_value(ls, clearmode_key()) {
        Some(v) => match mode_named(v) {
            Some(m) => m,
            None => default_mode(t),
        },
        None => default_mode(t),
    }
}

impl ClearMode {
    pub fn default_for_type(t: MetricType) -> (r: ClearMode)
        ensures
            r == default_mode(t),
    {
        match t {
            MetricType::Gauge => ClearMode::Replace,
            MetricType::Counter | MetricType::Histogram | MetricType::Summary
            | MetricType::Unknown => ClearMode::Aggregate,
        }
    }

    /// The mode that `s` names, if it names one.
    pub fn from_name(s: &String) -> (r: Option<ClearMode>)
        ensures
            r == mode_named(s@),
    {
        if *s == "aggregate".to_owned() {
            Some(ClearMode::Aggregate)
        } else if *s == "replace".to_owned() {
            Some(ClearMode::Replace)
        } else if *s == "family".to_owned() {
            Some(ClearMode::Family)
        } else {
            None
        }
    }

    /// Resolves the mode of a sample with labels `labels`; an unknown
    /// `clearmode` value falls back to the type's default.
    pub fn from_labels(family_type: MetricType, labels: &Vec<Label>) -> (r: ClearMode)
        ensures
            r == resolved_mode(family_type, labels@),
    {
        let key = clearmode_name();
        match get_label_value(labels, &key) {
            Some(v) => match ClearMode::from_name(v) {
                Some(m) => m,
                None => ClearMode::default_for_type(family_type),
            },
            None => ClearMode::default_for_type(family_type),
        }
    }
}

proof fn lemma_stripped_has_no_clearmode(ls: Seq<Label>)
    ensures
        label_value(without_clearmode(ls), clearmode_key()) is None,
    decreases ls.len(),
{
    if ls.len() > 0 {
        lemma_stripped_has_no_clearmode(ls.drop_first());
        if ls[0].name@ != clearmode_key() {
            let s = seq![ls[0]] + without_clearmode(ls.drop_first());
            assert(s.drop_first() =~= without_clearmode(ls.drop_first()));
        }
    }
}

/// A `clearmode` label whose value names no mode is no error: the sample
/// resolves to its type's default, exactly as without the label.
pub proof fn unknown_clearmode_falls_back(t: MetricType, ls: Seq<Label>)
    requires
        label_value(ls, clearmode_key()) is Some,
        mode_named(label_value(ls, clearmode_key())->Some_0) is None,
    ensures
        resolved_mode(t, ls) == default_mode(t),
        resolved_mode(t, ls) == resolved_mode(t, without_clearmode(ls)),
{
    lemma_stripped_has_no_clearmode(ls);
}

} // verus!
