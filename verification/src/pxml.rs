//! Writing a document as XML.
use vstd::prelude::*;
use vstd::string::StringExecFns;
use crate::emitter::{compact_settings, document_text, render};
use crate::error::PetriError;
use crate::events::{
    accepted, attribute, document_events, events_view, label_events, labels_events, name_events,
    net_events, nets_events, object_events, object_start, objects_events, sound_document,
    sound_list, sound_net, sound_object, sound_page, start, text_element, StartElement,
    XmlAttribute, XmlEvent, XmlEventView,
};
use crate::labels::Label;
use crate::model::{not_a_page_message, ObjectView, PetriErrorView};
use crate::nesting::lemma_document_events_are_accepted;
use crate::pnml::{
    labels_view, not_a_page, objects_view, Node, Object, ObjectBase, Page, PetriNet, PNMLDocument,
    PNMLID, PNMLName, PNMLVersion,
};
use crate::text::decimal_string;

verus! {

/// The attribute `name` with the value `value`.
fn new_attribute(name: &str, value: &str) -> (a: XmlAttribute)
    ensures
        a@ == attribute(name@, value@),
{
    XmlAttribute { name: String::from_str(name), value: String::from_str(value) }
}

/// The start of an element `name` whose first attribute is `id`.
fn start_with_id(name: &str, id: &PNMLID) -> (tag: StartElement)
    ensures
        XmlEventView::StartElement(tag@) == start(name@, seq![attribute("id"@, id@)]),
{
    let mut attributes: Vec<XmlAttribute> = Vec::new();
    attributes.push(new_attribute("id", id.0.as_str()));
    let tag = StartElement { name: String::from_str(name), default_namespace: None, attributes };
    assert(tag@.attributes =~= seq![attribute("id"@, id@)]);
    tag
}

/// Adds an attribute to a start tag.
fn add_attribute(tag: &mut StartElement, name: &str, value: &str)
    ensures
        final(tag)@.name == old(tag)@.name,
        final(tag)@.default_namespace == old(tag)@.default_namespace,
        final(tag)@.attributes == old(tag)@.attributes.push(attribute(name@, value@)),
{
    tag.attributes.push(new_attribute(name, value));
}

/// Appends one event.
fn push_event(out: &mut Vec<XmlEvent>, event: XmlEvent)
    ensures
        events_view(final(out)@) == events_view(old(out)@).push(event@),
{
    out.push(event);
}

/// Writes an element `name` that holds nothing but a `text` element with `content`.
fn write_text_element(out: &mut Vec<XmlEvent>, name: &str, content: &str)
    ensures
        events_view(final(out)@) == events_view(old(out)@) + text_element(name@, content@),
{
    push_event(
        out,
        XmlEvent::StartElement(
            StartElement {
                name: String::from_str(name),
                default_namespace: None,
                attributes: Vec::new(),
            },
        ),
    );
    push_event(
        out,
        XmlEvent::StartElement(
            StartElement {
                name: String::from_str("text"),
                default_namespace: None,
                attributes: Vec::new(),
            },
        ),
    );
    push_event(out, XmlEvent::Characters(String::from_str(content)));
    push_event(out, XmlEvent::EndElement);
    push_event(out, XmlEvent::EndElement);
    proof {
        let empty = Seq::<XmlAttribute>::empty().map_values(|a: XmlAttribute| a@);
        assert(empty =~= Seq::empty());
    }
}

impl PNMLVersion {
    /// The type of net that this version of the format names.
    pub(crate) fn uri(&self) -> (uri: &'static str)
        ensures
            uri@ == crate::events::ptnet_type(),
    {
        match self {
            PNMLVersion::V2009 => "http://www.pnml.org/version-2009/grammar/ptnet",
        }
    }
}

impl PNMLName {
    /// Writes the name as a `name` element, and nothing where there is none.
    pub(crate) fn write_xml(&self, out: &mut Vec<XmlEvent>)
        ensures
            events_view(final(out)@) == events_view(old(out)@) + name_events(self@),
    {
        if let PNMLName(Some(name)) = self {
            write_text_element(out, "name", name.as_str());
        }
    }
}

impl Label {
    /// Writes the label as the element of its kind.
    pub(crate) fn write_xml(&self, out: &mut Vec<XmlEvent>)
        ensures
            events_view(final(out)@) == events_view(old(out)@) + label_events(*self),
    {
        match self {
            Label::PTAnnotation(weight) => {
                let text = decimal_string(*weight);
                write_text_element(out, "inscription", text.as_str());
            },
            Label::PTMarking(mark_count) => {
                let text = decimal_string(*mark_count);
                write_text_element(out, "initialMarking", text.as_str());
            },
        }
    }
}

impl Node {
    /// The start tag of a node with the id `id`.
    pub(crate) fn start_element(&self, id: &PNMLID) -> (tag: StartElement)
        ensures
            XmlEventView::StartElement(tag@) == object_start(
                ObjectView {
                    id: id@,
                    name: None,
                    labels: Seq::empty(),
                    payload: crate::model::Payload::Node(self.model()),
                },
            ),
    {
        match self {
            Node::Place => start_with_id("place", id),
            Node::Transition => start_with_id("transition", id),
            Node::PlaceRef(target, _) => {
                let mut tag = start_with_id("referencePlace", id);
                add_attribute(&mut tag, "ref", target.0.as_str());
                assert(tag@.attributes =~= seq![attribute("id"@, id@), attribute("ref"@, target@)]);
                tag
            },
            Node::TransitionRef(target, _) => {
                let mut tag = start_with_id("referenceTransition", id);
                add_attribute(&mut tag, "ref", target.0.as_str());
                assert(tag@.attributes =~= seq![attribute("id"@, id@), attribute("ref"@, target@)]);
                tag
            },
        }
    }
}

/// Writes the labels of an object, in order.
fn write_labels(labels: &Option<Vec<Label>>, out: &mut Vec<XmlEvent>)
    ensures
        events_view(final(out)@) == events_view(old(out)@) + labels_events(labels_view(*labels)),
{
    match labels {
        Some(list) => {
            let mut i: usize = 0;
            while i < list.len()
                invariant
                    i <= list.len(),
                    events_view(out@) == events_view(old(out)@) + labels_events(
                        list@.take(i as int),
                    ),
                decreases list.len() - i,
            {
                list[i].write_xml(out);
                proof {
                    let next = list@.take(i as int + 1);
                    assert(next.drop_last() =~= list@.take(i as int));
                }
                i = i + 1;
            }
            assert(list@.take(list.len() as int) =~= list@);
        },
        None => {},
    }
}

/// Writes the objects of `list`, in order. With `pages` set, each of them
/// has to be a page.
fn write_objects(list: &Vec<ObjectBase>, pages: bool, out: &mut Vec<XmlEvent>) -> (r: Result<
    (),
    PetriError,
>)
    ensures
        match r {
            Ok(()) => sound_list(objects_view(*list), pages) && events_view(final(out)@)
                == events_view(old(out)@) + objects_events(objects_view(*list)),
            Err(e) => !sound_list(objects_view(*list), pages) && e@
                == PetriErrorView::CorruptedData(not_a_page_message()),
        },
    decreases list,
{
    let ghost models = objects_view(*list);
    let mut i: usize = 0;
    while i < list.len()
        invariant
            i <= list.len(),
            models == objects_view(*list),
            forall|j: int|
                0 <= j < i ==> sound_object(#[trigger] models[j]) && (pages ==> models[j].is_page()),
            events_view(out@) == events_view(old(out)@) + objects_events(models.take(i as int)),
        decreases list.len() - i,
    {
        let object = &list[i];
        assert(models[i as int] == object.model());
        if pages {
            match &object.object {
                Object::Page(_) => {},
                _ => {
                    return Err(not_a_page());
                },
            }
        }
        match object.write_xml(out) {
            Ok(()) => {},
            Err(e) => {
                return Err(e);
            },
        }
        proof {
            let next = models.take(i as int + 1);
            assert(next.drop_last() =~= models.take(i as int));
        }
        i = i + 1;
    }
    assert(models.take(list.len() as int) =~= models);
    Ok(())
}

impl Page {
    /// The start tag of a page with the id `id`.
    pub(crate) fn start_element(&self, id: &PNMLID) -> (tag: StartElement)
        ensures
            XmlEventView::StartElement(tag@) == start("page"@, seq![attribute("id"@, id@)]),
    {
        start_with_id("page", id)
    }

    /// Writes the objects of the page and then its nested pages.
    pub(crate) fn write_xml(&self, out: &mut Vec<XmlEvent>) -> (r: Result<(), PetriError>)
        ensures
            match r {
                Ok(()) => sound_page(self.model()) && events_view(final(out)@) == events_view(
                    old(out)@,
                ) + (objects_events(self.model().objects) + objects_events(self.model().sub_pages)),
                Err(e) => !sound_page(self.model()) && e@ == PetriErrorView::CorruptedData(
                    not_a_page_message(),
                ),
            },
        decreases self,
    {
        write_objects(&self.objects, false, out)?;
        write_objects(&self.sub_pages, true, out)?;
        Ok(())
    }
}

impl ObjectBase {
    /// Writes the object as one element.
    pub(crate) fn write_xml(&self, out: &mut Vec<XmlEvent>) -> (r: Result<(), PetriError>)
        ensures
            match r {
                Ok(()) => sound_object(self.model()) && events_view(final(out)@) == events_view(
                    old(out)@,
                ) + object_events(self.model()),
                Err(e) => !sound_object(self.model()) && e@ == PetriErrorView::CorruptedData(
                    not_a_page_message(),
                ),
            },
        decreases self,
    {
        // get the correct start element
        let start_element = match &self.object {
            Object::Arc(source, target) => {
                let mut tag = start_with_id("arc", &self.id);
                add_attribute(&mut tag, "source", source.0.as_str());
                add_attribute(&mut tag, "target", target.0.as_str());
                assert(tag@.attributes =~= seq![
                    attribute("id"@, self.id@),
                    attribute("source"@, source@),
                    attribute("target"@, target@),
                ]);
                tag
            },
            Object::Node(node) => node.start_element(&self.id),
            Object::Page(page) => page.start_element(&self.id),
        };
        // write the start element
        push_event(out, XmlEvent::StartElement(start_element));
        // write the contained tags
        self.name.write_xml(out);
        write_labels(&self.labels, out);
        // write page content if its a page
        match &self.object {
            Object::Page(page) => {
                page.write_xml(out)?;
            },
            _ => {},
        }
        // end of internal tags -> write the end element
        push_event(out, XmlEvent::EndElement);
        Ok(())
    }
}

impl PetriNet {
    /// Writes the net as one `net` element.
    pub(crate) fn write_xml(&self, out: &mut Vec<XmlEvent>) -> (r: Result<(), PetriError>)
        ensures
            match r {
                Ok(()) => sound_net(self@) && events_view(final(out)@) == events_view(old(out)@)
                    + net_events(self@),
                Err(e) => !sound_net(self@) && e@ == PetriErrorView::CorruptedData(
                    not_a_page_message(),
                ),
            },
    {
        let mut tag = start_with_id("net", &self.id);
        add_attribute(&mut tag, "type", self.typ.uri());
        assert(tag@.attributes =~= seq![
            attribute("id"@, self@.id),
            attribute("type"@, crate::events::ptnet_type()),
        ]);
        push_event(out, XmlEvent::StartElement(tag));
        self.name.write_xml(out);
        write_objects(&self.pages, true, out)?;
        push_event(out, XmlEvent::EndElement);
        Ok(())
    }
}

impl PNMLDocument {
    /// Writes the document as one `pnml` element.
    pub(crate) fn write_xml(&self, out: &mut Vec<XmlEvent>) -> (r: Result<(), PetriError>)
        ensures
            match r {
                Ok(()) => sound_document(self@) && events_view(final(out)@) == events_view(
                    old(out)@,
                ) + document_events(self@),
                Err(e) => !sound_document(self@) && e@ == PetriErrorView::CorruptedData(
                    not_a_page_message(),
                ),
            },
    {
        push_event(
            out,
            XmlEvent::StartElement(
                StartElement {
                    name: String::from_str("pnml"),
                    default_namespace: Some(
                        String::from_str("http://www.pnml.org/version-2009/grammar/pnml"),
                    ),
                    attributes: Vec::new(),
                },
            ),
        );
        let ghost started = events_view(out@);
        let mut i: usize = 0;
        proof {
            let empty = Seq::<XmlAttribute>::empty().map_values(|a: XmlAttribute| a@);
            assert(empty =~= Seq::empty());
        }
        while i < self.petri_nets.len()
            invariant
                i <= self.petri_nets.len(),
                forall|j: int| 0 <= j < i ==> sound_net(#[trigger] self@[j]),
                events_view(out@) == started + nets_events(self@.take(i as int)),
            decreases self.petri_nets.len() - i,
        {
            assert(self@[i as int] == self.petri_nets[i as int]@);
            match self.petri_nets[i].write_xml(out) {
                Ok(()) => {},
                Err(e) => {
                    return Err(e);
                },
            }
            proof {
                let next = self@.take(i as int + 1);
                assert(next.drop_last() =~= self@.take(i as int));
            }
            i = i + 1;
        }
        assert(self@.take(self.petri_nets.len() as int) =~= self@);
        push_event(out, XmlEvent::EndElement);
        Ok(())
    }

    /// The events that the document is written as. Fails where an entry that
    /// has to be a page is none.
    pub fn xml_events(&self) -> (r: Result<Vec<XmlEvent>, PetriError>)
        ensures
            match r {
                Ok(events) => sound_document(self@) && events_view(events@) == document_events(
                    self@,
                ),
                Err(e) => !sound_document(self@) && e@ == PetriErrorView::CorruptedData(
                    not_a_page_message(),
                ),
            },
    {
        let mut events: Vec<XmlEvent> = Vec::new();
        self.write_xml(&mut events)?;
        Ok(events)
    }

    /// The document as XML text: what the writer makes of the events that
    /// the document is written as.
    ///
    /// Fails with `CorruptedData` where an entry that has to be a page is
    /// none, and only there: the writer writes into memory and takes every
    /// event of a document.
    pub fn to_xml(&self) -> (r: Result<String, PetriError>)
        ensures
            match r {
                Ok(text) => sound_document(self@) && text@ == document_text(
                    compact_settings(),
                    document_events(self@),
                ),
                Err(e) => !sound_document(self@) && e@ == PetriErrorView::CorruptedData(
                    not_a_page_message(),
                ),
            },
            r is Ok <==> sound_document(self@) && accepted(document_events(self@)),
    {
        let events = self.xml_events()?;
        proof {
            lemma_document_events_are_accepted(self@);
        }
        match render(&events) {
            Ok(text) => Ok(text),
            Err(e) => Err(PetriError::from(e)),
        }
    }
}

} // verus!
