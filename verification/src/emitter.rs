//! The XML writer of the `xml` crate, as far as this library uses it.
//!
//! Nothing in this file is proved about the writer: each function states what
//! the `xml` crate's source shows of the call that it makes.
use vstd::prelude::*;
use xml::writer::events::StartElementBuilder;
use xml::writer::{EmitterConfig, EventWriter};
use crate::events::{
    accepted, accepts, events_view, open_elements, StartElementView, XmlAttributeView, XmlEvent,
    XmlEventView,
};

verus! {

#[verifier::external_type_specification]
#[verifier::external_body]
#[verifier::reject_recursive_types(W)]
pub struct ExEventWriter<W>(EventWriter<W>);

#[verifier::external_type_specification]
#[verifier::external_body]
pub struct ExStartElementBuilder<'a>(StartElementBuilder<'a>);

#[verifier::external_type_specification]
#[verifier::external_body]
pub struct ExEmitterError(xml::writer::Error);

/// The settings of a writer: the fields of its `EmitterConfig`, one for one.
pub struct WriterSettings {
    pub line_separator: Seq<char>,
    pub indent_string: Seq<char>,
    pub perform_indent: bool,
    pub perform_escaping: bool,
    pub write_document_declaration: bool,
    pub normalize_empty_elements: bool,
    pub cdata_to_characters: bool,
    pub keep_element_names_stack: bool,
    pub autopad_comments: bool,
    pub pad_self_closing: bool,
}

/// The settings that this library writes with: those that `EmitterConfig`
/// starts with, but for the space before the slash of an empty element. So
/// the text is not indented, an element with nothing in it is written as an
/// empty element, and the writer keeps the names of the open elements.
pub open spec fn compact_settings() -> WriterSettings {
    WriterSettings {
        line_separator: seq!['\n'],
        indent_string: seq![' ', ' '],
        perform_indent: false,
        perform_escaping: true,
        write_document_declaration: true,
        normalize_empty_elements: true,
        cdata_to_characters: false,
        keep_element_names_stack: true,
        autopad_comments: true,
        pad_self_closing: false,
    }
}

/// The settings that a writer was made with.
pub uninterp spec fn settings(writer: EventWriter<Vec<u8>>) -> WriterSettings;

/// The events that a writer has taken without failing since it was made,
/// oldest first. This is a record of what was handed to the writer, not
/// something that the writer holds: two writers alike in every field may
/// have taken different events. Nothing in this library says of two writers
/// that they are the same.
pub uninterp spec fn emitted(writer: EventWriter<Vec<u8>>) -> Seq<XmlEventView>;

/// Whether a writer was made with an empty buffer and nothing has reached
/// it or its buffer since but starts, ends and text, handed to it by `write`.
/// Like [`emitted`] this is a record of what was done with the writer, not
/// something that the writer holds.
pub uninterp spec fn undisturbed(writer: EventWriter<Vec<u8>>) -> bool;

/// The start tag that a builder has been given so far.
pub uninterp spec fn pending(builder: StartElementBuilder<'_>) -> StartElementView;

/// The text that an undisturbed writer with the given settings has in its
/// buffer once it has taken the events.
pub uninterp spec fn document_text(settings: WriterSettings, events: Seq<XmlEventView>) -> Seq<
    char,
>;

/// `EmitterConfig::new`, `pad_self_closing`, `create_writer`: a writer into
/// an empty buffer, with the settings that `EmitterConfig` starts with but
/// for `pad_self_closing`, that has taken no event yet.
#[verifier::external_body]
fn new_writer() -> (writer: EventWriter<Vec<u8>>)
    ensures
        settings(writer) == compact_settings(),
        emitted(writer) == Seq::<XmlEventView>::empty(),
        undisturbed(writer),
{
    EmitterConfig::new().pad_self_closing(false).create_writer(Vec::new())
}

/// `XmlEvent::start_element`: a builder for a start tag with the given
/// name, without attributes or namespaces.
#[verifier::external_body]
fn start_element<'a>(name: &'a str) -> (builder: StartElementBuilder<'a>)
    ensures
        pending(builder) == (StartElementView {
            name: name@,
            default_namespace: None,
            attributes: Seq::empty(),
        }),
{
    xml::writer::XmlEvent::start_element(name)
}

/// `StartElementBuilder::default_ns`: the builder with `uri` as its default
/// namespace, unless it has one already, which it then keeps.
#[verifier::external_body]
fn with_default_ns<'a>(builder: StartElementBuilder<'a>, uri: &str) -> (r: StartElementBuilder<'a>)
    ensures
        pending(r) == (StartElementView {
            default_namespace: if pending(builder).default_namespace is None {
                Some(uri@)
            } else {
                pending(builder).default_namespace
            },
            ..pending(builder)
        }),
{
    builder.default_ns(uri)
}

/// `StartElementBuilder::attr`: the builder with one more attribute, after
/// those that it has.
#[verifier::external_body]
fn with_attribute<'a>(builder: StartElementBuilder<'a>, name: &'a str, value: &'a str) -> (r:
    StartElementBuilder<'a>)
    ensures
        pending(r) == (StartElementView {
            attributes: pending(builder).attributes.push(
                XmlAttributeView { name: name@, value: value@ },
            ),
            ..pending(builder)
        }),
{
    builder.attr(name, value)
}

/// `EventWriter::write` of a start tag. It fails on nothing but a failure
/// of the buffer, and a buffer in memory does not fail: the writer takes the
/// tag that the builder holds. Its settings stay, and it is as undisturbed
/// as it was.
#[verifier::external_body]
fn write_start(writer: &mut EventWriter<Vec<u8>>, builder: StartElementBuilder<'_>) -> (r: Result<
    (),
    xml::writer::Error,
>)
    ensures
        r is Ok,
        emitted(*final(writer)) == emitted(*old(writer)).push(
            XmlEventView::StartElement(pending(builder)),
        ),
        settings(*final(writer)) == settings(*old(writer)),
        undisturbed(*final(writer)) == undisturbed(*old(writer)),
{
    writer.write(builder)
}

/// `EventWriter::write` of `XmlEvent::end_element`. A writer that keeps the
/// names of the open elements takes the end where an element is open, that
/// is where it has taken more starts than ends, and fails where none is; one
/// that does not keep them fails, having no name to end. Where it succeeds,
/// the writer has taken the end. Its settings stay, and it is as undisturbed
/// as it was.
#[verifier::external_body]
fn write_end(writer: &mut EventWriter<Vec<u8>>) -> (r: Result<(), xml::writer::Error>)
    ensures
        r is Ok <==> settings(*old(writer)).keep_element_names_stack && open_elements(
            emitted(*old(writer)),
        ) > 0,
        r is Ok ==> emitted(*final(writer)) == emitted(*old(writer)).push(
            XmlEventView::EndElement,
        ),
        settings(*final(writer)) == settings(*old(writer)),
        undisturbed(*final(writer)) == undisturbed(*old(writer)),
{
    writer.write(xml::writer::XmlEvent::end_element())
}

/// `EventWriter::write` of `XmlEvent::characters`. It fails on nothing but
/// a failure of the buffer, and a buffer in memory does not fail: the writer
/// takes the text. Its settings stay, and it is as undisturbed as it was.
#[verifier::external_body]
fn write_characters(writer: &mut EventWriter<Vec<u8>>, text: &str) -> (r: Result<
    (),
    xml::writer::Error,
>)
    ensures
        r is Ok,
        emitted(*final(writer)) == emitted(*old(writer)).push(XmlEventView::Characters(text@)),
        settings(*final(writer)) == settings(*old(writer)),
        undisturbed(*final(writer)) == undisturbed(*old(writer)),
{
    writer.write(xml::writer::XmlEvent::characters(text))
}

/// `to_string` of `xml::writer::Error`, which goes by its `Display`: the
/// text that the writer gives for one of its errors. Nothing is claimed of it.
#[verifier::external_body]
pub(crate) fn writer_error_text(error: &xml::writer::Error) -> String {
    error.to_string()
}

/// `EventWriter::into_inner`: the buffer of the writer, read as text. Of
/// an undisturbed writer this is the text that its settings make of the
/// events that it has taken.
#[verifier::external_body]
fn into_text(writer: EventWriter<Vec<u8>>) -> (text: String)
    ensures
        undisturbed(writer) ==> text@ == document_text(settings(writer), emitted(writer)),
{
    String::from_utf8_lossy(&writer.into_inner()).into_owned()
}

/// Hands the events to a fresh writer, one after the other, and returns the
/// text that the writer has made of them. Stops at the first event that the
/// writer fails on, and fails with what the writer failed with: so it
/// succeeds where every end has an open element to end, and only there.
pub fn render(events: &Vec<XmlEvent>) -> (r: Result<String, xml::writer::Error>)
    ensures
        r is Ok <==> accepted(events_view(events@)),
        r matches Ok(text) ==> text@ == document_text(compact_settings(), events_view(events@)),
{
    let mut writer = new_writer();
    let mut i: usize = 0;
    let ghost all = events_view(events@);
    while i < events.len()
        invariant
            i <= events.len(),
            all == events_view(events@),
            settings(writer) == compact_settings(),
            undisturbed(writer),
            emitted(writer) == all.take(i as int),
            forall|j: int| 0 <= j < i ==> accepts(all.take(j), #[trigger] all[j]),
        decreases events.len() - i,
    {
        assert(all[i as int] == events@[i as int]@);
        match &events[i] {
            XmlEvent::StartElement(tag) => {
                let mut builder = start_element(tag.name.as_str());
                if let Some(uri) = &tag.default_namespace {
                    builder = with_default_ns(builder, uri.as_str());
                }
                let mut k: usize = 0;
                while k < tag.attributes.len()
                    invariant
                        k <= tag.attributes.len(),
                        pending(builder).name == tag@.name,
                        pending(builder).default_namespace == tag@.default_namespace,
                        pending(builder).attributes == tag@.attributes.take(k as int),
                    decreases tag.attributes.len() - k,
                {
                    let a = &tag.attributes[k];
                    builder = with_attribute(builder, a.name.as_str(), a.value.as_str());
                    k = k + 1;
                }
                assert(tag@.attributes.take(tag.attributes.len() as int) =~= tag@.attributes);
                write_start(&mut writer, builder)?;
            },
            XmlEvent::EndElement => {
                write_end(&mut writer)?;
            },
            XmlEvent::Characters(text) => {
                write_characters(&mut writer, text.as_str())?;
            },
        }
        i = i + 1;
    }
    assert(events_view(events@).take(events.len() as int) =~= events_view(events@));
    Ok(into_text(writer))
}

} // verus!
