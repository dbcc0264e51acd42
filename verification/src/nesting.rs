//! Why a writer takes every event of a document: each element that is
//! started is ended, and nothing is ended that was not started.
use vstd::prelude::*;
use crate::events::{
    accepted, document_events, label_events, labels_events, name_events, net_events, nets_events,
    object_events, object_start, objects_events, open_elements, opens, start, text_element,
    XmlEventView,
};
use crate::labels::Label;
use crate::model::{NetView, ObjectView, Payload};

verus! {

/// Every one of the events can follow those before it where `open`
/// elements are open at the outset.
pub open spec fn accepted_after(open: int, events: Seq<XmlEventView>) -> bool {
    forall|i: int|
        0 <= i < events.len() && (#[trigger] events[i]) is EndElement ==> open + open_elements(
            events.take(i),
        ) > 0
}

/// The events are whole elements and text between them: every end has its
/// start among them, and every start its end.
pub open spec fn complete(events: Seq<XmlEventView>) -> bool {
    accepted_after(0, events) && open_elements(events) == 0
}

/// After one event, what that event opens is open.
pub proof fn lemma_open_elements_one(event: XmlEventView)
    ensures
        open_elements(seq![event]) == opens(event),
{
    reveal_with_fuel(open_elements, 2);
    assert(seq![event].drop_last() =~= Seq::<XmlEventView>::empty());
}

/// The elements that are open after two runs of events are those that
/// either has left open.
pub proof fn lemma_open_elements_add(a: Seq<XmlEventView>, b: Seq<XmlEventView>)
    ensures
        open_elements(a + b) == open_elements(a) + open_elements(b),
    decreases b.len(),
{
    if b.len() == 0 {
        assert(a + b =~= a);
    } else {
        lemma_open_elements_add(a, b.drop_last());
        assert((a + b).drop_last() =~= a + b.drop_last());
    }
}

/// One run of events can follow another where it can follow what the first
/// has left open.
pub proof fn lemma_accepted_after_add(open: int, a: Seq<XmlEventView>, b: Seq<XmlEventView>)
    requires
        accepted_after(open, a),
        accepted_after(open + open_elements(a), b),
    ensures
        accepted_after(open, a + b),
        open_elements(a + b) == open_elements(a) + open_elements(b),
{
    lemma_open_elements_add(a, b);
    let both = a + b;
    assert forall|i: int| 0 <= i < both.len() && (#[trigger] both[i]) is EndElement implies open
        + open_elements(both.take(i)) > 0 by {
        if i < a.len() {
            assert((a + b).take(i) =~= a.take(i));
            assert(a[i] is EndElement);
        } else {
            let k = i - a.len();
            assert((a + b).take(i) =~= a + b.take(k));
            assert(b[k] is EndElement);
            lemma_open_elements_add(a, b.take(k));
        }
    }
}

/// Whole elements after whole elements are whole elements.
pub proof fn lemma_complete_add(a: Seq<XmlEventView>, b: Seq<XmlEventView>)
    requires
        complete(a),
        complete(b),
    ensures
        complete(a + b),
{
    lemma_accepted_after_add(0, a, b);
}

/// Whole elements between a start and an end are one whole element.
pub proof fn lemma_complete_wrap(tag: XmlEventView, inner: Seq<XmlEventView>)
    requires
        tag is StartElement,
        complete(inner),
    ensures
        complete(seq![tag] + inner + seq![XmlEventView::EndElement]),
{
    let head = seq![tag];
    let tail = seq![XmlEventView::EndElement];
    lemma_open_elements_one(tag);
    lemma_open_elements_one(XmlEventView::EndElement);
    assert forall|i: int| 0 <= i < inner.len() && (#[trigger] inner[i]) is EndElement implies 1
        + open_elements(inner.take(i)) > 0 by {}
    lemma_accepted_after_add(0, head, inner);
    assert forall|i: int| 0 <= i < tail.len() && (#[trigger] tail[i]) is EndElement implies 1
        + open_elements(tail.take(i)) > 0 by {
        assert(tail.take(0) =~= Seq::<XmlEventView>::empty());
    }
    lemma_accepted_after_add(0, head + inner, tail);
}

/// Text alone is complete.
pub proof fn lemma_complete_characters(content: Seq<char>)
    ensures
        complete(seq![XmlEventView::Characters(content)]),
{
    lemma_open_elements_one(XmlEventView::Characters(content));
}

/// Nothing at all is complete.
pub proof fn lemma_complete_empty()
    ensures
        complete(Seq::<XmlEventView>::empty()),
{
}

/// An element that holds a `text` element is complete.
pub proof fn lemma_complete_text_element(name: Seq<char>, content: Seq<char>)
    ensures
        complete(text_element(name, content)),
{
    let text = seq![XmlEventView::Characters(content)];
    let inner = seq![start("text"@, Seq::empty())] + text + seq![XmlEventView::EndElement];
    lemma_complete_characters(content);
    lemma_complete_wrap(start("text"@, Seq::empty()), text);
    lemma_complete_wrap(start(name, Seq::empty()), inner);
    assert(text_element(name, content) =~= seq![start(name, Seq::empty())] + inner + seq![
        XmlEventView::EndElement,
    ]);
}

/// What a name is written as is complete.
pub proof fn lemma_complete_name(name: Option<Seq<char>>)
    ensures
        complete(name_events(name)),
{
    match name {
        Some(text) => lemma_complete_text_element("name"@, text),
        None => {},
    }
}

/// What labels are written as is complete.
pub proof fn lemma_complete_labels(labels: Seq<Label>)
    ensures
        complete(labels_events(labels)),
    decreases labels.len(),
{
    if labels.len() > 0 {
        lemma_complete_labels(labels.drop_last());
        match labels.last() {
            Label::PTMarking(count) => lemma_complete_text_element(
                "initialMarking"@,
                crate::text::decimal(count as nat),
            ),
            Label::PTAnnotation(weight) => lemma_complete_text_element(
                "inscription"@,
                crate::text::decimal(weight as nat),
            ),
        }
        lemma_complete_add(labels_events(labels.drop_last()), label_events(labels.last()));
    }
}

/// Three runs of whole elements between a start and an end are one whole
/// element.
pub proof fn lemma_complete_element(
    tag: XmlEventView,
    first: Seq<XmlEventView>,
    second: Seq<XmlEventView>,
    third: Seq<XmlEventView>,
)
    requires
        tag is StartElement,
        complete(first),
        complete(second),
        complete(third),
    ensures
        complete(seq![tag] + first + second + third + seq![XmlEventView::EndElement]),
{
    let inner = first + second + third;
    lemma_complete_add(first, second);
    lemma_complete_add(first + second, third);
    lemma_complete_wrap(tag, inner);
    assert(seq![tag] + first + second + third =~= seq![tag] + inner);
}

/// An object starts with the start of an element.
pub proof fn lemma_object_start_is_start(obj: ObjectView)
    ensures
        object_start(obj) is StartElement,
{
}

/// What is written inside a page: its objects, then its nested pages; for
/// another object nothing.
pub open spec fn content_events(obj: ObjectView) -> Seq<XmlEventView> {
    match obj.payload {
        Payload::Page(page) => objects_events(page.objects) + objects_events(page.sub_pages),
        _ => Seq::empty(),
    }
}

/// What an object is written as is one whole element.
pub proof fn lemma_complete_object(obj: ObjectView)
    ensures
        complete(object_events(obj)),
    decreases obj,
{
    match obj.payload {
        Payload::Page(page) => {
            lemma_complete_objects(page.objects);
            lemma_complete_objects(page.sub_pages);
            lemma_complete_add(objects_events(page.objects), objects_events(page.sub_pages));
        },
        _ => {},
    }
    lemma_complete_name(obj.name);
    lemma_complete_labels(obj.labels);
    lemma_object_start_is_start(obj);
    lemma_complete_element(
        object_start(obj),
        name_events(obj.name),
        labels_events(obj.labels),
        content_events(obj),
    );
}

/// What a list of objects is written as is whole elements.
pub proof fn lemma_complete_objects(list: Seq<ObjectView>)
    ensures
        complete(objects_events(list)),
    decreases list,
{
    if list.len() > 0 {
        lemma_complete_objects(list.drop_last());
        lemma_complete_object(list.last());
        lemma_complete_add(objects_events(list.drop_last()), object_events(list.last()));
    }
}

/// What a net is written as is one whole element.
pub proof fn lemma_complete_net(net: NetView)
    ensures
        complete(net_events(net)),
{
    let tag = net_events(net)[0];
    lemma_complete_name(net.name);
    lemma_complete_objects(net.pages);
    lemma_complete_empty();
    lemma_complete_element(
        tag,
        name_events(net.name),
        objects_events(net.pages),
        Seq::<XmlEventView>::empty(),
    );
    assert(net_events(net) =~= seq![tag] + name_events(net.name) + objects_events(net.pages)
        + Seq::<XmlEventView>::empty() + seq![XmlEventView::EndElement]);
}

/// What the nets of a document are written as is whole elements.
pub proof fn lemma_complete_nets(nets: Seq<NetView>)
    ensures
        complete(nets_events(nets)),
    decreases nets.len(),
{
    if nets.len() > 0 {
        lemma_complete_nets(nets.drop_last());
        lemma_complete_net(nets.last());
        lemma_complete_add(nets_events(nets.drop_last()), net_events(nets.last()));
    }
}

/// A document is written as one whole element, so that a writer takes
/// every one of its events: no end comes without an element to end.
pub proof fn lemma_document_events_are_accepted(nets: Seq<NetView>)
    ensures
        complete(document_events(nets)),
        accepted(document_events(nets)),
{
    let tag = document_events(nets)[0];
    lemma_complete_nets(nets);
    lemma_complete_wrap(tag, nets_events(nets));
    assert(document_events(nets) =~= seq![tag] + nets_events(nets) + seq![
        XmlEventView::EndElement,
    ]);
}

} // verus!
