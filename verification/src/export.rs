//! The two target lists in the shape in which they are handed on: each a
//! list of URLs with the labels that mark its group.

use vstd::prelude::*;
use crate::seqs::views;
use crate::urls::{Url, UrlView};

verus! {

/// A list of targets and the labels that go with all of them. No label
/// name occurs twice.
#[derive(Debug)]
pub struct Prom {
    targets: Vec<Url>,
    labels: Vec<(String, String)>,
}

/// The mathematical value of a [`Prom`].
pub struct PromView {
    /// The targets, in their order.
    pub targets: Seq<UrlView>,
    /// Label names with their values, in the order in which the names were
    /// first set.
    pub labels: Seq<(Seq<char>, Seq<char>)>,
}

/// The views of names with their values.
pub open spec fn label_views(labels: Seq<(String, String)>) -> Seq<(Seq<char>, Seq<char>)> {
    labels.map_values(|l: (String, String)| (l.0@, l.1@))
}

/// Whether no name occurs twice.
pub open spec fn distinct_names(labels: Seq<(Seq<char>, Seq<char>)>) -> bool {
    forall|i: int, j: int|
        0 <= i < j < labels.len() ==> (#[trigger] labels[i]).0 != (#[trigger] labels[j]).0
}

/// Whether `name` is among the names.
pub open spec fn has_label(labels: Seq<(Seq<char>, Seq<char>)>, name: Seq<char>) -> bool {
    exists|i: int| 0 <= i < labels.len() && (#[trigger] labels[i]).0 == name
}

/// The labels after `name` is set to `value`: the name keeps its place if
/// it was there, and comes last if it was not.
pub open spec fn set_label(
    labels: Seq<(Seq<char>, Seq<char>)>,
    name: Seq<char>,
    value: Seq<char>,
) -> Seq<(Seq<char>, Seq<char>)> {
    let renewed = labels.map_values(
        |l: (Seq<char>, Seq<char>)|
            if l.0 == name {
                (name, value)
            } else {
                l
            },
    );
    if has_label(labels, name) {
        renewed
    } else {
        labels.push((name, value))
    }
}

/// The labels of the matched group: the location, and nothing else.
pub open spec fn bigip_labels() -> Seq<(Seq<char>, Seq<char>)> {
    seq![("location"@, "BigIP"@)]
}

impl View for Prom {
    type V = PromView;

    closed spec fn view(&self) -> PromView {
        PromView { targets: views(self.targets@), labels: label_views(self.labels@) }
    }
}

impl Prom {
    #[verifier::type_invariant]
    spec fn inv(&self) -> bool {
        distinct_names(self@.labels)
    }

    /// A record of the targets, without a label.
    pub fn new(targets: Vec<Url>) -> (r: Prom)
        ensures
            r@.targets == views(targets@),
            r@.labels == Seq::<(Seq<char>, Seq<char>)>::empty(),
    {
        let r = Prom { targets, labels: Vec::new() };
        assert(r@.labels =~= Seq::<(Seq<char>, Seq<char>)>::empty());
        r
    }

    /// The record with `name` set to `value`, whether or not the name had a
    /// value before.
    pub fn with_label(self, name: &str, value: &str) -> (r: Prom)
        ensures
            r@.targets == self@.targets,
            r@.labels == set_label(self@.labels, name@, value@),
            distinct_names(r@.labels),
    {
        proof {
            use_type_invariant(&self);
        }
        let wanted = name.to_owned();
        let ghost before = label_views(self.labels@);
        let mut labels: Vec<(String, String)> = Vec::new();
        let mut found = false;
        let mut i: usize = 0;
        while i < self.labels.len()
            invariant
                i <= self.labels.len(),
                wanted@ == name@,
                before == label_views(self.labels@),
                label_views(labels@) == before.take(i as int).map_values(
                    |l: (Seq<char>, Seq<char>)|
                        if l.0 == name@ {
                            (name@, value@)
                        } else {
                            l
                        },
                ),
                found == has_label(before.take(i as int), name@),
            decreases self.labels.len() - i,
        {
            let ghost done = before.take(i as int);
            let same = self.labels[i].0 == wanted;
            let label = if same {
                (name.to_owned(), value.to_owned())
            } else {
                (self.labels[i].0.clone(), self.labels[i].1.clone())
            };
            proof {
                assert(before.take(i + 1) == done.push(before[i as int]));
                labels@.lemma_push_map_commute(|l: (String, String)| (l.0@, l.1@), label);
                done.lemma_push_map_commute(
                    |l: (Seq<char>, Seq<char>)|
                        if l.0 == name@ {
                            (name@, value@)
                        } else {
                            l
                        },
                    before[i as int],
                );
                if has_label(done, name@) {
                    let k = choose|k: int| 0 <= k < done.len() && (#[trigger] done[k]).0 == name@;
                    assert(before.take(i + 1)[k] == done[k]);
                }
                if same {
                    assert(before.take(i + 1)[i as int].0 == name@);
                }
            }
            if same {
                found = true;
            }
            labels.push(label);
            i += 1;
        }
        proof {
            assert(before.take(self.labels.len() as int) == before);
        }
        if !found {
            let label = (name.to_owned(), value.to_owned());
            proof {
                labels@.lemma_push_map_commute(|l: (String, String)| (l.0@, l.1@), label);
                assert(label_views(labels@) =~= before);
            }
            labels.push(label);
        }
        proof {
            lemma_set_label_distinct(before, name@, value@);
        }
        Prom { targets: self.targets, labels }
    }

    /// The targets, in their order.
    pub fn targets(&self) -> (t: &Vec<Url>)
        ensures
            views(t@) == self@.targets,
    {
        &self.targets
    }

    /// The label names with their values; no name occurs twice.
    pub fn labels(&self) -> (l: &Vec<(String, String)>)
        ensures
            label_views(l@) == self@.labels,
            distinct_names(self@.labels),
    {
        proof {
            use_type_invariant(self);
        }
        &self.labels
    }

    /// The record of the matched group: the targets under the label
    /// `location` with the value `BigIP`.
    pub fn bigip(targets: Vec<Url>) -> (r: Prom)
        ensures
            r@.targets == views(targets@),
            r@.labels == bigip_labels(),
    {
        let r = Prom::new(targets).with_label("location", "BigIP");
        assert(r@.labels =~= bigip_labels());
        r
    }

    /// The record of the unmatched group: the targets without a label.
    pub fn other(targets: Vec<Url>) -> (r: Prom)
        ensures
            r@.targets == views(targets@),
            r@.labels == Seq::<(Seq<char>, Seq<char>)>::empty(),
    {
        Prom::new(targets)
    }
}

/// Setting a label leaves no name twice where none was twice before.
pub proof fn lemma_set_label_distinct(
    labels: Seq<(Seq<char>, Seq<char>)>,
    name: Seq<char>,
    value: Seq<char>,
)
    requires
        distinct_names(labels),
    ensures
        distinct_names(set_label(labels, name, value)),
        has_label(set_label(labels, name, value), name),
{
    let after = set_label(labels, name, value);
    if has_label(labels, name) {
        let k = choose|k: int| 0 <= k < labels.len() && (#[trigger] labels[k]).0 == name;
        assert(after[k].0 == name);
        assert forall|i: int, j: int| 0 <= i < j < after.len() implies (#[trigger] after[i]).0 != (
        #[trigger] after[j]).0 by {
            assert(after[i].0 == labels[i].0);
            assert(after[j].0 == labels[j].0);
        }
    } else {
        assert(after[labels.len() as int].0 == name);
        assert forall|i: int, j: int| 0 <= i < j < after.len() implies (#[trigger] after[i]).0 != (
        #[trigger] after[j]).0 by {
            if j < labels.len() {
                assert(after[i] == labels[i]);
                assert(after[j] == labels[j]);
            } else {
                assert(after[i] == labels[i]);
            }
        }
    }
}

/// Turns the two groups into the two records, the matched group first.
pub fn export(groups: (Vec<Url>, Vec<Url>)) -> (r: (Prom, Prom))
    ensures
        r.0@.targets == views(groups.0@),
        r.0@.labels == bigip_labels(),
        r.1@.targets == views(groups.1@),
        r.1@.labels == Seq::<(Seq<char>, Seq<char>)>::empty(),
{
    let (matched, unmatched) = groups;
    (Prom::bigip(matched), Prom::other(unmatched))
}

} // verus!
