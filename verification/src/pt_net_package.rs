//! The labels of Place/Transition nets: the initial marking of a place and
//! the inscription of an arc.
use vstd::prelude::*;
use vstd::string::StringExecFns;
use crate::error::PetriError;
use crate::growth::grown_net;
use crate::labels::{
    annotations, lemma_filter_none, lemma_one_annotation, lemma_one_marking, markings,
    without_annotations, without_markings, Label,
};
use crate::model::{ObjectView, PetriErrorView};
use crate::pnml::{ArcRef, Node, NodeRef, Object, PetriNet};
use crate::wellformed::{labels_fit, lemma_object_well_formed, lemma_with_object_well_formed};

verus! {

/// The labels of `list` without its markings (`markings` set) or without its
/// annotations (`markings` not set).
fn drop_labels(list: &Vec<Label>, markings: bool) -> (kept: Vec<Label>)
    ensures
        kept@ == if markings {
            without_markings(list@)
        } else {
            without_annotations(list@)
        },
{
    let mut kept: Vec<Label> = Vec::new();
    let mut i: usize = 0;
    while i < list.len()
        invariant
            i <= list.len(),
            kept@ == if markings {
                without_markings(list@.take(i as int))
            } else {
                without_annotations(list@.take(i as int))
            },
        decreases list.len() - i,
    {
        let label = list[i];
        let dropped = match label {
            Label::PTMarking(_) => markings,
            Label::PTAnnotation(_) => !markings,
        };
        proof {
            assert(list@.take(i as int + 1) =~= list@.take(i as int).push(label));
            list@.take(i as int).lemma_filter_push(label, |l: Label| !l.is_marking());
            list@.take(i as int).lemma_filter_push(label, |l: Label| !l.is_annotation());
        }
        if !dropped {
            kept.push(label);
        }
        i = i + 1;
    }
    assert(list@.take(list.len() as int) =~= list@);
    kept
}

/// A place of a well-formed net has no label but a marking, so that one
/// marking is all it has once its marking is set.
proof fn lemma_marked_fits(obj: ObjectView, count: usize)
    requires
        labels_fit(obj),
        obj.payload == crate::model::Payload::Node(crate::model::NodeView::Place),
    ensures
        labels_fit(obj.with_labels(without_markings(obj.labels).push(Label::PTMarking(count)))),
{
    lemma_filter_none(obj.labels, |l: Label| !l.is_marking());
}

/// An arc of a well-formed net has no label but an annotation, so that one
/// annotation is all it has once its annotation is set.
proof fn lemma_inscribed_fits(obj: ObjectView, multiplicity: usize)
    requires
        labels_fit(obj),
        obj.payload is Arc,
        multiplicity > 0,
    ensures
        labels_fit(
            obj.with_labels(
                without_annotations(obj.labels).push(Label::PTAnnotation(multiplicity)),
            ),
        ),
{
    lemma_filter_none(obj.labels, |l: Label| !l.is_annotation());
}

impl NodeRef {
    /// Sets the initial marking of a place: any marking that the place has
    /// is dropped, and one with `label` tokens is added. Zero is a marking
    /// like any other.
    pub fn initial_marking(&mut self, net: &mut PetriNet, label: usize) -> (r: Result<
        &mut Self,
        PetriError,
    >)
        ensures
            match r {
                Ok(handle) => {
                    &&& old(net)@.marked(old(self)@, label) matches Ok(place)
                    &&& final(net)@ == old(net)@.with_object(
                        old(self)@.page().path,
                        old(self)@.index(),
                        place,
                    )
                    &&& markings(place.labels) == seq![Label::PTMarking(label)]
                    &&& *handle == *old(self)
                    &&& *final(self) == *final(handle)
                },
                Err(e) => old(net)@.marked(old(self)@, label) == Err::<ObjectView, PetriErrorView>(
                    e@,
                ) && final(net)@ == old(net)@ && *final(self) == *old(self),
            },
            old(net).wf() ==> final(net).wf(),
            grown_net(old(net)@, final(net)@),
    {
        proof {
            net@.lemma_grown_net_same();
        }
        match self {
            NodeRef::PlaceRef { .. } => {
                let ghost before = net@;
                let obj = net.get_node_obj_mut(self)?;
                let ghost found = obj.model();
                match obj.object {
                    Object::Node(Node::Place) => {},
                    _ => {
                        proof {
                            before.lemma_with_object_same(self@.page().path, self@.index());
                        }
                        return Err(
                            PetriError::InvalidData(
                                String::from_str("only places can have a marking"),
                            ),
                        );
                    },
                }
                let mut labels = match &obj.labels {
                    Some(list) => drop_labels(list, true),
                    None => {
                        assert(without_markings(Seq::<Label>::empty()) =~= Seq::<Label>::empty());
                        Vec::new()
                    },
                };
                labels.push(Label::PTMarking(label));
                obj.labels = Some(labels);
                proof {
                    lemma_one_marking(found.labels, label);
                    before.lemma_with_object_grown(self@.page().path, self@.index(), obj.model());
                    if before.well_formed() {
                        lemma_object_well_formed(before, self@.page().path, self@.index());
                        lemma_marked_fits(found, label);
                        lemma_with_object_well_formed(
                            before,
                            self@.page().path,
                            self@.index(),
                            obj.model(),
                        );
                    }
                }
                Ok(self)
            },
            NodeRef::TransitionRef { .. } => Err(
                PetriError::InvalidData(String::from_str("transitions cannot have a marking")),
            ),
        }
    }
}

impl ArcRef {
    /// Sets the weight/multiplicity of the arc, which cannot be zero: any
    /// annotation that the arc has is dropped, and one with `label` is added.
    pub fn inscription(&mut self, net: &mut PetriNet, label: usize) -> (r: Result<
        &mut Self,
        PetriError,
    >)
        ensures
            match r {
                Ok(handle) => {
                    &&& old(net)@.inscribed(old(self)@, label) matches Ok(arc)
                    &&& final(net)@ == old(net)@.with_object(
                        old(self)@.page.path,
                        old(self)@.index,
                        arc,
                    )
                    &&& annotations(arc.labels) == seq![Label::PTAnnotation(label)]
                    &&& *handle == *old(self)
                    &&& *final(self) == *final(handle)
                },
                Err(e) => old(net)@.inscribed(old(self)@, label) == Err::<
                    ObjectView,
                    PetriErrorView,
                >(e@) && final(net)@ == old(net)@ && *final(self) == *old(self),
            },
            label == 0 ==> r is Err && final(net)@ == old(net)@,
            old(net).wf() ==> final(net).wf(),
            grown_net(old(net)@, final(net)@),
    {
        proof {
            net@.lemma_grown_net_same();
        }
        if label == 0 {
            return Err(
                PetriError::InvalidData(
                    String::from_str("the multiplicity of an arc cannot be zero"),
                ),
            );
        }
        let ghost before = net@;
        let obj = net.get_arc_obj_mut(self)?;
        let ghost found = obj.model();
        let mut labels = match &obj.labels {
            Some(list) => drop_labels(list, false),
            None => {
                assert(without_annotations(Seq::<Label>::empty()) =~= Seq::<Label>::empty());
                Vec::new()
            },
        };
        labels.push(Label::PTAnnotation(label));
        obj.labels = Some(labels);
        proof {
            lemma_one_annotation(found.labels, label);
            before.lemma_with_object_grown(self@.page.path, self@.index, obj.model());
            if before.well_formed() {
                lemma_object_well_formed(before, self@.page.path, self@.index);
                lemma_inscribed_fits(found, label);
                lemma_with_object_well_formed(before, self@.page.path, self@.index, obj.model());
            }
        }
        Ok(self)
    }
}

} // verus!
