//! The labels of Place/Transition nets, and what it means to replace one.
use vstd::prelude::*;

verus! {

/// A label of the Place/Transition net type.
#[derive(Clone, Copy, PartialEq, Eq, Debug, Structural)]
pub enum Label {
    /// Mark count on a place.
    PTMarking(usize),
    /// Multiplicity of an arc; never zero in a well-formed net.
    PTAnnotation(usize),
}

impl Label {
    pub open spec fn is_marking(self) -> bool {
        self is PTMarking
    }

    pub open spec fn is_annotation(self) -> bool {
        self is PTAnnotation
    }
}

/// The labels of `labels` that are markings, in order.
pub open spec fn markings(labels: Seq<Label>) -> Seq<Label> {
    labels.filter(|l: Label| l.is_marking())
}

/// The labels of `labels` that are annotations, in order.
pub open spec fn annotations(labels: Seq<Label>) -> Seq<Label> {
    labels.filter(|l: Label| l.is_annotation())
}

/// `labels` with every marking dropped.
pub open spec fn without_markings(labels: Seq<Label>) -> Seq<Label> {
    labels.filter(|l: Label| !l.is_marking())
}

/// `labels` with every annotation dropped.
pub open spec fn without_annotations(labels: Seq<Label>) -> Seq<Label> {
    labels.filter(|l: Label| !l.is_annotation())
}

/// Filtering twice is filtering once, where the second filter passes only
/// what the first one passes.
pub proof fn lemma_filter_twice(
    labels: Seq<Label>,
    first: spec_fn(Label) -> bool,
    second: spec_fn(Label) -> bool,
)
    requires
        forall|l: Label| #[trigger] second(l) ==> first(l),
    ensures
        labels.filter(first).filter(second) == labels.filter(second),
    decreases labels.len(),
{
    reveal(Seq::filter);
    if labels.len() > 0 {
        let rest = labels.drop_last();
        lemma_filter_twice(rest, first, second);
        rest.filter(first).lemma_filter_push(labels.last(), second);
    }
}

/// A filter leaves nothing of a list of which it passes no entry.
pub proof fn lemma_filter_none(labels: Seq<Label>, pred: spec_fn(Label) -> bool)
    requires
        forall|i: int| 0 <= i < labels.len() ==> !pred(#[trigger] labels[i]),
    ensures
        labels.filter(pred) == Seq::<Label>::empty(),
    decreases labels.len(),
{
    reveal(Seq::filter);
    if labels.len() > 0 {
        lemma_filter_none(labels.drop_last(), pred);
    }
}

/// Setting the marking leaves exactly one marking, the new one, and leaves
/// the annotations as they were.
pub proof fn lemma_one_marking(labels: Seq<Label>, count: usize)
    ensures
        markings(without_markings(labels).push(Label::PTMarking(count))) == seq![
            Label::PTMarking(count),
        ],
        annotations(without_markings(labels).push(Label::PTMarking(count))) == annotations(labels),
{
    let is_m = |l: Label| l.is_marking();
    let not_m = |l: Label| !l.is_marking();
    let is_a = |l: Label| l.is_annotation();
    let kept = labels.filter(not_m);
    kept.lemma_filter_push(Label::PTMarking(count), is_m);
    kept.lemma_filter_push(Label::PTMarking(count), is_a);
    lemma_filter_none(kept, is_m);
    lemma_filter_twice(labels, not_m, is_a);
}

/// Setting the annotation leaves exactly one annotation, the new one, and
/// leaves the markings as they were.
pub proof fn lemma_one_annotation(labels: Seq<Label>, multiplicity: usize)
    ensures
        annotations(without_annotations(labels).push(Label::PTAnnotation(multiplicity))) == seq![
            Label::PTAnnotation(multiplicity),
        ],
        markings(without_annotations(labels).push(Label::PTAnnotation(multiplicity))) == markings(
            labels,
        ),
{
    let is_m = |l: Label| l.is_marking();
    let not_a = |l: Label| !l.is_annotation();
    let is_a = |l: Label| l.is_annotation();
    let kept = labels.filter(not_a);
    kept.lemma_filter_push(Label::PTAnnotation(multiplicity), is_m);
    kept.lemma_filter_push(Label::PTAnnotation(multiplicity), is_a);
    lemma_filter_none(kept, is_a);
    lemma_filter_twice(labels, not_a, is_m);
}

} // verus!
