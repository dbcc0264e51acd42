//! The events that make up an XML document, and the events that a net is
//! written as.
use vstd::prelude::*;
use crate::labels::Label;
use crate::model::{NetView, NodeView, ObjectView, PageView, Payload};
use crate::text::decimal;

verus! {

/// An attribute of an element.
#[derive(Debug, PartialEq, Eq)]
pub struct XmlAttribute {
    pub name: String,
    pub value: String,
}

/// The start of an element.
#[derive(Debug, PartialEq, Eq)]
pub struct StartElement {
    pub name: String,
    /// The default namespace that the element declares, if it declares one.
    pub default_namespace: Option<String>,
    pub attributes: Vec<XmlAttribute>,
}

/// One event of a document.
#[derive(Debug, PartialEq, Eq)]
pub enum XmlEvent {
    StartElement(StartElement),
    /// The end of the element that was started last and has not ended yet.
    EndElement,
    Characters(String),
}

pub struct XmlAttributeView {
    pub name: Seq<char>,
    pub value: Seq<char>,
}

pub struct StartElementView {
    pub name: Seq<char>,
    pub default_namespace: Option<Seq<char>>,
    pub attributes: Seq<XmlAttributeView>,
}

pub enum XmlEventView {
    StartElement(StartElementView),
    EndElement,
    Characters(Seq<char>),
}

impl View for XmlAttribute {
    type V = XmlAttributeView;

    open spec fn view(&self) -> XmlAttributeView {
        XmlAttributeView { name: self.name@, value: self.value@ }
    }
}

impl View for StartElement {
    type V = StartElementView;

    open spec fn view(&self) -> StartElementView {
        StartElementView {
            name: self.name@,
            default_namespace: match self.default_namespace {
                Some(uri) => Some(uri@),
                None => None,
            },
            attributes: self.attributes@.map_values(|a: XmlAttribute| a@),
        }
    }
}

impl View for XmlEvent {
    type V = XmlEventView;

    open spec fn view(&self) -> XmlEventView {
        match self {
            XmlEvent::StartElement(tag) => XmlEventView::StartElement(tag@),
            XmlEvent::EndElement => XmlEventView::EndElement,
            XmlEvent::Characters(text) => XmlEventView::Characters(text@),
        }
    }
}

/// The views of a list of events, one for one.
pub open spec fn events_view(events: Seq<XmlEvent>) -> Seq<XmlEventView> {
    events.map_values(|e: XmlEvent| e@)
}

/// What one event does to the number of open elements: a start opens one,
/// an end closes one, text does neither.
pub open spec fn opens(event: XmlEventView) -> int {
    match event {
        XmlEventView::StartElement(_) => 1,
        XmlEventView::EndElement => -1,
        XmlEventView::Characters(_) => 0,
    }
}

/// The number of elements that are open after the events: the starts among
/// them less the ends.
pub open spec fn open_elements(events: Seq<XmlEventView>) -> int
    decreases events.len(),
{
    if events.len() == 0 {
        0
    } else {
        open_elements(events.drop_last()) + opens(events.last())
    }
}

/// Whether an event can follow the events `taken`: an end needs an open
/// element to end, and anything else can.
pub open spec fn accepts(taken: Seq<XmlEventView>, next: XmlEventView) -> bool {
    next is EndElement ==> open_elements(taken) > 0
}

/// Every one of the events can follow those before it.
pub open spec fn accepted(events: Seq<XmlEventView>) -> bool {
    forall|i: int| 0 <= i < events.len() ==> accepts(events.take(i), #[trigger] events[i])
}

/// The namespace of the document element.
pub open spec fn pnml_namespace() -> Seq<char> {
    "http://www.pnml.org/version-2009/grammar/pnml"@
}

/// The type of a Place/Transition net.
pub open spec fn ptnet_type() -> Seq<char> {
    "http://www.pnml.org/version-2009/grammar/ptnet"@
}

pub open spec fn attribute(name: Seq<char>, value: Seq<char>) -> XmlAttributeView {
    XmlAttributeView { name, value }
}

/// The start of an element without a namespace declaration.
pub open spec fn start(name: Seq<char>, attributes: Seq<XmlAttributeView>) -> XmlEventView {
    XmlEventView::StartElement(StartElementView { name, default_namespace: None, attributes })
}

/// An element `name` that holds nothing but a `text` element with `content`.
pub open spec fn text_element(name: Seq<char>, content: Seq<char>) -> Seq<XmlEventView> {
    seq![
        start(name, Seq::empty()),
        start("text"@, Seq::empty()),
        XmlEventView::Characters(content),
        XmlEventView::EndElement,
        XmlEventView::EndElement,
    ]
}

/// A name is written as a `name` element, and not at all where there is none.
pub open spec fn name_events(name: Option<Seq<char>>) -> Seq<XmlEventView> {
    match name {
        Some(text) => text_element("name"@, text),
        None => Seq::empty(),
    }
}

/// A marking is written as `initialMarking`, an annotation as `inscription`,
/// each with its number in decimal.
pub open spec fn label_events(label: Label) -> Seq<XmlEventView> {
    match label {
        Label::PTMarking(count) => text_element("initialMarking"@, decimal(count as nat)),
        Label::PTAnnotation(weight) => text_element("inscription"@, decimal(weight as nat)),
    }
}

/// The labels of an object, in order.
pub open spec fn labels_events(labels: Seq<Label>) -> Seq<XmlEventView>
    decreases labels.len(),
{
    if labels.len() == 0 {
        Seq::empty()
    } else {
        labels_events(labels.drop_last()) + label_events(labels.last())
    }
}

/// The start tag of an object: its element name by kind, its id, and what
/// else its kind has to say.
pub open spec fn object_start(obj: ObjectView) -> XmlEventView {
    match obj.payload {
        Payload::Page(_) => start("page"@, seq![attribute("id"@, obj.id)]),
        Payload::Arc { source, sink } => start(
            "arc"@,
            seq![
                attribute("id"@, obj.id),
                attribute("source"@, source),
                attribute("target"@, sink),
            ],
        ),
        Payload::Node(NodeView::Place) => start("place"@, seq![attribute("id"@, obj.id)]),
        Payload::Node(NodeView::Transition) => start("transition"@, seq![attribute("id"@, obj.id)]),
        Payload::Node(NodeView::PlaceReference { target, .. }) => start(
            "referencePlace"@,
            seq![attribute("id"@, obj.id), attribute("ref"@, target)],
        ),
        Payload::Node(NodeView::TransitionReference { target, .. }) => start(
            "referenceTransition"@,
            seq![attribute("id"@, obj.id), attribute("ref"@, target)],
        ),
    }
}

/// An object is written as its start tag, its name, its labels, for a page
/// its objects and then its nested pages, and the end of the element.
pub open spec fn object_events(obj: ObjectView) -> Seq<XmlEventView>
    decreases obj,
{
    seq![object_start(obj)] + name_events(obj.name) + labels_events(obj.labels) + (match obj.payload {
        Payload::Page(page) => objects_events(page.objects) + objects_events(page.sub_pages),
        _ => Seq::empty(),
    }) + seq![XmlEventView::EndElement]
}

/// The objects of a list, in order.
pub open spec fn objects_events(list: Seq<ObjectView>) -> Seq<XmlEventView>
    decreases list,
{
    if list.len() == 0 {
        Seq::empty()
    } else {
        objects_events(list.drop_last()) + object_events(list.last())
    }
}

/// A net is written as a `net` element with its id and type, its name and
/// its pages.
pub open spec fn net_events(net: NetView) -> Seq<XmlEventView> {
    seq![start("net"@, seq![attribute("id"@, net.id), attribute("type"@, ptnet_type())])]
        + name_events(net.name) + objects_events(net.pages) + seq![XmlEventView::EndElement]
}

/// The nets of a document, in order.
pub open spec fn nets_events(nets: Seq<NetView>) -> Seq<XmlEventView>
    decreases nets.len(),
{
    if nets.len() == 0 {
        Seq::empty()
    } else {
        nets_events(nets.drop_last()) + net_events(nets.last())
    }
}

/// A document is written as a `pnml` element in the namespace of the format
/// that holds the nets.
pub open spec fn document_events(nets: Seq<NetView>) -> Seq<XmlEventView> {
    seq![
        XmlEventView::StartElement(
            StartElementView {
                name: "pnml"@,
                default_namespace: Some(pnml_namespace()),
                attributes: Seq::empty(),
            },
        ),
    ] + nets_events(nets) + seq![XmlEventView::EndElement]
}

/// Every slot for a page, at any depth below `obj`, holds a page.
pub open spec fn sound_object(obj: ObjectView) -> bool
    decreases obj,
{
    match obj.payload {
        Payload::Page(page) => sound_page(page),
        _ => true,
    }
}

/// Every slot for a page, at any depth of `page`, holds a page.
pub open spec fn sound_page(page: PageView) -> bool
    decreases page,
{
    sound_list(page.objects, false) && sound_list(page.sub_pages, true)
}

/// Every slot for a page, at any depth below the entries of `list`, holds a
/// page, and so does, with `pages` set, every entry of `list` itself.
pub open spec fn sound_list(list: Seq<ObjectView>, pages: bool) -> bool
    decreases list,
{
    forall|i: int|
        0 <= i < list.len() ==> sound_object(#[trigger] list[i]) && (pages ==> list[i].is_page())
}

/// Every slot for a page, at any depth of the net, holds a page.
pub open spec fn sound_net(net: NetView) -> bool {
    sound_list(net.pages, true)
}

/// Every slot for a page, at any depth of the document, holds a page.
pub open spec fn sound_document(nets: Seq<NetView>) -> bool {
    forall|i: int| 0 <= i < nets.len() ==> sound_net(#[trigger] nets[i])
}

} // verus!
