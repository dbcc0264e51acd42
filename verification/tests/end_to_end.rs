use pnml::{NodeRef, PNMLDocument, PetriError};

const HEAD: &str = "<?xml version=\"1.0\" encoding=\"UTF-8\"?>";
const PNML: &str = "http://www.pnml.org/version-2009/grammar/pnml";
const PTNET: &str = "http://www.pnml.org/version-2009/grammar/ptnet";

#[test]
fn empty_document_is_an_empty_pnml_element() {
    let doc = PNMLDocument::new();
    assert_eq!(doc.to_xml().unwrap(), format!("{}<pnml xmlns=\"{}\"/>", HEAD, PNML));
}

#[test]
fn place_transition_and_inscribed_arc() {
    let mut doc = PNMLDocument::new();
    doc.add_petri_net(None);
    let net_ref = doc.add_petri_net(None);
    let net = doc.petri_net_data(net_ref).unwrap();
    let page = net.add_page(None);
    let place = net.add_place(&page).unwrap();
    let transition = net.add_transition(&page).unwrap();
    let mut arc = net.add_arc(&page, &place, &transition).unwrap();
    arc.inscription(net, 3).unwrap();
    let xml = doc.to_xml().unwrap();
    assert!(xml.contains("<place id=\"n1_p0_o0\"/>"));
    assert!(xml.contains("<transition id=\"n1_p0_o1\"/>"));
    assert!(xml.contains(
        "<arc id=\"n1_p0_o2\" source=\"n1_p0_o0\" target=\"n1_p0_o1\"><inscription><text>3</text></inscription></arc>"
    ));
    assert_eq!(
        xml,
        format!(
            "{}<pnml xmlns=\"{}\"><net id=\"n0\" type=\"{}\"/><net id=\"n1\" type=\"{}\"><page id=\"n1_p0\"><place id=\"n1_p0_o0\"/><transition id=\"n1_p0_o1\"/><arc id=\"n1_p0_o2\" source=\"n1_p0_o0\" target=\"n1_p0_o1\"><inscription><text>3</text></inscription></arc></page></net></pnml>",
            HEAD, PNML, PTNET, PTNET
        )
    );
}

#[test]
fn marking_appears_only_once_it_is_set() {
    let mut doc = PNMLDocument::new();
    let net_ref = doc.add_petri_net(None);
    let net = doc.petri_net_data(net_ref).unwrap();
    let page = net.add_page(None);
    let mut place = net.add_place(&page).unwrap();
    let before = doc.to_xml().unwrap();
    assert!(!before.contains("initialMarking"));
    assert!(before.contains("<place id=\"n0_p0_o0\"/>"));
    let net = doc.petri_net_data(net_ref).unwrap();
    place.initial_marking(net, 0).unwrap();
    let after = doc.to_xml().unwrap();
    assert!(after.contains(
        "<place id=\"n0_p0_o0\"><initialMarking><text>0</text></initialMarking></place>"
    ));
}

#[test]
fn second_marking_replaces_the_first() {
    let mut doc = PNMLDocument::new();
    let net_ref = doc.add_petri_net(None);
    let net = doc.petri_net_data(net_ref).unwrap();
    let page = net.add_page(None);
    let mut place = net.add_place(&page).unwrap();
    place.initial_marking(net, 12).unwrap();
    place.initial_marking(net, 0).unwrap();
    let xml = doc.to_xml().unwrap();
    assert_eq!(xml.matches("<initialMarking>").count(), 1);
    assert!(xml.contains("<initialMarking><text>0</text></initialMarking>"));
    assert!(!xml.contains("12"));
    let net = doc.petri_net_data(net_ref).unwrap();
    place.initial_marking(net, 305).unwrap();
    let xml = doc.to_xml().unwrap();
    assert_eq!(xml.matches("<initialMarking>").count(), 1);
    assert!(xml.contains("<initialMarking><text>305</text></initialMarking>"));
}

#[test]
fn second_inscription_replaces_the_first() {
    let mut doc = PNMLDocument::new();
    let net_ref = doc.add_petri_net(None);
    let net = doc.petri_net_data(net_ref).unwrap();
    let page = net.add_page(None);
    let place = net.add_place(&page).unwrap();
    let transition = net.add_transition(&page).unwrap();
    let mut arc = net.add_arc(&page, &transition, &place).unwrap();
    arc.inscription(net, 4).unwrap();
    arc.inscription(net, 18446744073709551615).unwrap();
    let xml = doc.to_xml().unwrap();
    assert_eq!(xml.matches("<inscription>").count(), 1);
    assert!(xml.contains("<inscription><text>18446744073709551615</text></inscription>"));
}

#[test]
fn zero_inscription_is_refused_and_changes_nothing() {
    let mut doc = PNMLDocument::new();
    let net_ref = doc.add_petri_net(None);
    let net = doc.petri_net_data(net_ref).unwrap();
    let page = net.add_page(None);
    let place = net.add_place(&page).unwrap();
    let transition = net.add_transition(&page).unwrap();
    let mut arc = net.add_arc(&page, &place, &transition).unwrap();
    assert!(matches!(arc.inscription(net, 0), Err(PetriError::InvalidData(_))));
    let bare = doc.to_xml().unwrap();
    assert!(!bare.contains("inscription"));
    let net = doc.petri_net_data(net_ref).unwrap();
    arc.inscription(net, 2).unwrap();
    let before = doc.to_xml().unwrap();
    let net = doc.petri_net_data(net_ref).unwrap();
    match arc.inscription(net, 0) {
        Err(PetriError::InvalidData(detail)) => {
            assert_eq!(detail, "the multiplicity of an arc cannot be zero")
        }
        _ => panic!("a multiplicity of zero was taken"),
    }
    assert_eq!(doc.to_xml().unwrap(), before);
    assert!(before.contains("<inscription><text>2</text></inscription>"));
}

#[test]
fn names_pages_and_reference_nodes() {
    let mut doc = PNMLDocument::new();
    let net_ref = doc.add_petri_net(Some("a & b"));
    let net = doc.petri_net_data(net_ref).unwrap();
    let page = net.add_page(Some("top"));
    let sub = net.add_sub_page(Some("inner"), &page).unwrap();
    let mut place = net.add_place(&page).unwrap();
    let mut transition = net.add_transition(&sub).unwrap();
    place.name(net, "p").unwrap();
    transition.name(net, "t").unwrap();
    let mut arc = net.add_arc(&sub, &transition, &place).unwrap();
    arc.name(net, "a").unwrap();
    let place_copy = net.add_reference_node(&place, &sub).unwrap();
    let transition_copy = net.add_reference_node(&transition, &page).unwrap();
    assert_eq!(place_copy, NodeRef::PlaceRef { page: sub.clone(), obj_index: 2 });
    assert_eq!(transition_copy, NodeRef::TransitionRef { page: page.clone(), obj_index: 1 });
    assert_eq!(
        doc.to_xml().unwrap(),
        format!(
            "{}<pnml xmlns=\"{}\"><net id=\"n0\" type=\"{}\"><name><text>a &amp; b</text></name><page id=\"n0_p0\"><name><text>top</text></name><place id=\"n0_p0_o0\"><name><text>p</text></name></place><referenceTransition id=\"n0_p0_o1\" ref=\"n0_p0-0_o0\"/><page id=\"n0_p0-0\"><name><text>inner</text></name><transition id=\"n0_p0-0_o0\"><name><text>t</text></name></transition><arc id=\"n0_p0-0_o1\" source=\"n0_p0-0_o0\" target=\"n0_p0_o0\"><name><text>a</text></name></arc><referencePlace id=\"n0_p0-0_o2\" ref=\"n0_p0_o0\"/></page></page></net></pnml>",
            HEAD, PNML, PTNET
        )
    );
}

#[test]
fn serialized_tree_of_the_first_example() {
    let mut doc = PNMLDocument::new();
    let net_ref1 = doc.add_petri_net(Some("net1"));
    let net1 = doc.petri_net_data(net_ref1).unwrap();
    let page_ref1 = net1.add_page(Some("page1"));
    let sub_page_ref1 = net1.add_sub_page(Some("subPage"), &page_ref1).unwrap();
    let place1 = net1.add_place(&page_ref1).unwrap();
    let transition1 = net1.add_transition(&sub_page_ref1).unwrap();
    let mut place2 = net1.add_place(&sub_page_ref1).unwrap();
    let mut place3 = net1.add_place(&sub_page_ref1).unwrap();
    net1.add_place(&page_ref1).unwrap();
    let mut arc = net1.add_arc(&page_ref1, &place1, &transition1).unwrap();
    place2.name(net1, "p2").unwrap();
    arc.inscription(net1, 5).unwrap();
    place3.initial_marking(net1, 7).unwrap();
    assert_eq!(
        doc.to_xml().unwrap(),
        format!(
            "{}<pnml xmlns=\"{}\"><net id=\"n0\" type=\"{}\"><name><text>net1</text></name><page id=\"n0_p0\"><name><text>page1</text></name><place id=\"n0_p0_o0\"/><place id=\"n0_p0_o1\"/><arc id=\"n0_p0_o2\" source=\"n0_p0_o0\" target=\"n0_p0-0_o0\"><inscription><text>5</text></inscription></arc><page id=\"n0_p0-0\"><name><text>subPage</text></name><transition id=\"n0_p0-0_o0\"/><place id=\"n0_p0-0_o1\"><name><text>p2</text></name></place><place id=\"n0_p0-0_o2\"><initialMarking><text>7</text></initialMarking></place></page></page></net></pnml>",
            HEAD, PNML, PTNET
        )
    );
}
