use pnml::emitter::render;
use pnml::{PNMLDocument, PetriError, StartElement, XmlAttribute, XmlEvent};

fn start(name: &str, attributes: &[(&str, &str)]) -> XmlEvent {
    XmlEvent::StartElement(StartElement {
        name: name.to_string(),
        default_namespace: None,
        attributes: attributes
            .iter()
            .map(|(name, value)| XmlAttribute { name: name.to_string(), value: value.to_string() })
            .collect(),
    })
}

fn root() -> XmlEvent {
    XmlEvent::StartElement(StartElement {
        name: "pnml".to_string(),
        default_namespace: Some("http://www.pnml.org/version-2009/grammar/pnml".to_string()),
        attributes: Vec::new(),
    })
}

fn text(content: &str) -> XmlEvent {
    XmlEvent::Characters(content.to_string())
}

#[test]
fn events_of_an_empty_document() {
    let doc = PNMLDocument::new();
    assert_eq!(doc.xml_events().unwrap(), vec![root(), XmlEvent::EndElement]);
}

#[test]
fn events_of_a_small_net() {
    let mut doc = PNMLDocument::new();
    let net_ref = doc.add_petri_net(Some("net"));
    let net = doc.petri_net_data(net_ref).unwrap();
    let page = net.add_page(None);
    let mut place = net.add_place(&page).unwrap();
    let transition = net.add_transition(&page).unwrap();
    let mut arc = net.add_arc(&page, &place, &transition).unwrap();
    place.initial_marking(net, 0).unwrap();
    arc.inscription(net, 30).unwrap();
    let sub = net.add_sub_page(None, &page).unwrap();
    net.add_reference_node(&transition, &sub).unwrap();
    let end = || XmlEvent::EndElement;
    assert_eq!(
        doc.xml_events().unwrap(),
        vec![
            root(),
            start(
                "net",
                &[("id", "n0"), ("type", "http://www.pnml.org/version-2009/grammar/ptnet")]
            ),
            start("name", &[]),
            start("text", &[]),
            text("net"),
            end(),
            end(),
            start("page", &[("id", "n0_p0")]),
            start("place", &[("id", "n0_p0_o0")]),
            start("initialMarking", &[]),
            start("text", &[]),
            text("0"),
            end(),
            end(),
            end(),
            start("transition", &[("id", "n0_p0_o1")]),
            end(),
            start("arc", &[("id", "n0_p0_o2"), ("source", "n0_p0_o0"), ("target", "n0_p0_o1")]),
            start("inscription", &[]),
            start("text", &[]),
            text("30"),
            end(),
            end(),
            end(),
            start("page", &[("id", "n0_p0-0")]),
            start("referenceTransition", &[("id", "n0_p0-0_o0"), ("ref", "n0_p0_o1")]),
            end(),
            end(),
            end(),
            end(),
            end(),
        ]
    );
}

#[test]
fn rendering_writes_the_events_in_order() {
    let events = vec![
        root(),
        start("a", &[("x", "1"), ("y", "<2>")]),
        text("one & two"),
        XmlEvent::EndElement,
        start("b", &[]),
        XmlEvent::EndElement,
        XmlEvent::EndElement,
    ];
    assert_eq!(
        render(&events).unwrap(),
        "<?xml version=\"1.0\" encoding=\"UTF-8\"?><pnml xmlns=\"http://www.pnml.org/version-2009/grammar/pnml\"><a x=\"1\" y=\"&lt;2&gt;\">one &amp; two</a><b/></pnml>"
    );
}

#[test]
fn rendering_nothing_gives_nothing() {
    assert_eq!(render(&Vec::new()).unwrap(), "");
}

#[test]
fn rendering_keeps_the_order_of_attributes() {
    let forth = vec![start("e", &[("a", "1"), ("b", "2")]), XmlEvent::EndElement];
    let back = vec![start("e", &[("b", "2"), ("a", "1")]), XmlEvent::EndElement];
    assert_eq!(
        render(&forth).unwrap(),
        "<?xml version=\"1.0\" encoding=\"UTF-8\"?><e a=\"1\" b=\"2\"/>"
    );
    assert_eq!(
        render(&back).unwrap(),
        "<?xml version=\"1.0\" encoding=\"UTF-8\"?><e b=\"2\" a=\"1\"/>"
    );
}

#[test]
fn rendering_stops_where_the_writer_fails() {
    let events = vec![start("a", &[]), XmlEvent::EndElement, XmlEvent::EndElement];
    assert!(render(&events).is_err());
    let error = PetriError::from(render(&vec![XmlEvent::EndElement]).unwrap_err());
    assert!(matches!(error, PetriError::XmlWriterError(_)));
}

#[test]
fn text_is_what_the_events_render_to() {
    let mut doc = PNMLDocument::new();
    let net_ref = doc.add_petri_net(Some("net"));
    let net = doc.petri_net_data(net_ref).unwrap();
    let page = net.add_page(Some("page"));
    net.add_place(&page).unwrap();
    assert_eq!(doc.to_xml().unwrap(), render(&doc.xml_events().unwrap()).unwrap());
}

#[test]
fn the_writer_takes_an_end_only_where_an_element_is_open() {
    let end = || XmlEvent::EndElement;
    assert!(render(&vec![start("a", &[])]).is_ok());
    assert!(render(&vec![text("alone")]).is_ok());
    assert!(render(&vec![text("")]).is_ok());
    assert!(render(&vec![start("a", &[]), start("b", &[]), end()]).is_ok());
    assert!(render(&vec![start("a", &[]), text("x"), end(), text("y")]).is_ok());
    assert!(render(&vec![end()]).is_err());
    assert!(render(&vec![text("x"), end()]).is_err());
    assert!(render(&vec![start("a", &[]), end(), end()]).is_err());
    assert!(render(&vec![start("a", &[]), end(), start("b", &[]), end(), end(), start("c", &[])])
        .is_err());
    assert!(render(&vec![start("a", &[]), end(), start("b", &[]), end()]).is_ok());
}

#[test]
fn the_text_is_not_indented_and_empty_elements_have_no_space() {
    let events = vec![
        start("a", &[]),
        start("b", &[("k", "v")]),
        XmlEvent::EndElement,
        start("c", &[]),
        text("t"),
        XmlEvent::EndElement,
        XmlEvent::EndElement,
    ];
    assert_eq!(
        render(&events).unwrap(),
        "<?xml version=\"1.0\" encoding=\"UTF-8\"?><a><b k=\"v\"/><c>t</c></a>"
    );
}

#[test]
fn a_document_is_always_written() {
    let mut doc = PNMLDocument::new();
    assert!(doc.to_xml().is_ok());
    for n in 0..4usize {
        let net_ref = doc.add_petri_net(if n % 2 == 0 { None } else { Some("net") });
        let net = doc.petri_net_data(net_ref).unwrap();
        let mut page = net.add_page(None);
        for depth in 0..n {
            let mut place = net.add_place(&page).unwrap();
            let transition = net.add_transition(&page).unwrap();
            let mut arc = net.add_arc(&page, &transition, &place).unwrap();
            place.initial_marking(net, depth).unwrap();
            arc.inscription(net, depth + 1).unwrap();
            net.add_reference_node(&place, &page).unwrap();
            page = net.add_sub_page(Some("deeper"), &page).unwrap();
        }
        let text = doc.to_xml();
        assert!(text.is_ok());
        assert_eq!(text.unwrap(), render(&doc.xml_events().unwrap()).unwrap());
    }
}
