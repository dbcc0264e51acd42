use pnml::{ArcRef, NodeRef, PNMLDocument, PageRef, PetriError, PetriNetRef};

fn ids_of(xml: &str, element: &str) -> Vec<String> {
    let open = format!("<{} id=\"", element);
    let mut ids = Vec::new();
    let mut rest = xml;
    while let Some(at) = rest.find(&open) {
        rest = &rest[at + open.len()..];
        let end = rest.find('"').unwrap();
        ids.push(rest[..end].to_string());
        rest = &rest[end..];
    }
    ids
}

#[test]
fn net_handles_count_up() {
    let mut doc = PNMLDocument::new();
    assert!(doc.petri_nets().is_empty());
    let first = doc.add_petri_net(None);
    let second = doc.add_petri_net(Some("second"));
    let third = doc.add_petri_net(None);
    assert_ne!(first, second);
    assert_eq!(doc.petri_nets(), vec![first, second, third]);
    assert_eq!(ids_of(&doc.to_xml().unwrap(), "net"), vec!["n0", "n1", "n2"]);
}

#[test]
fn unknown_net_is_not_found() {
    let mut big = PNMLDocument::new();
    big.add_petri_net(None);
    let second: PetriNetRef = big.add_petri_net(None);
    let mut small = PNMLDocument::new();
    small.add_petri_net(None);
    assert!(matches!(small.petri_net_data(second), Err(PetriError::NetNotFound)));
    assert!(big.petri_net_data(second).is_ok());
    let mut empty = PNMLDocument::new();
    assert!(matches!(empty.petri_net_data(second), Err(PetriError::NetNotFound)));
}

#[test]
fn page_handles_list_the_top_level_pages() {
    let mut doc = PNMLDocument::new();
    let net_ref = doc.add_petri_net(None);
    let net = doc.petri_net_data(net_ref).unwrap();
    assert!(net.pages().is_empty());
    let a = net.add_page(None);
    let b = net.add_page(Some("b"));
    net.add_sub_page(None, &a).unwrap();
    assert_ne!(a, b);
    assert_eq!(net.pages(), vec![a.clone(), b.clone()]);
    let place = net.add_place(&net.pages()[1]).unwrap();
    assert_eq!(place, NodeRef::PlaceRef { page: b, obj_index: 0 });
    assert_eq!(ids_of(&doc.to_xml().unwrap(), "place"), vec!["n0_p1_o0"]);
}

#[test]
fn ids_of_one_page_count_up_with_creation() {
    let mut doc = PNMLDocument::new();
    let net_ref = doc.add_petri_net(None);
    let net = doc.petri_net_data(net_ref).unwrap();
    let page = net.add_page(None);
    let mut handles = Vec::new();
    for i in 0..23usize {
        let node = if i % 3 == 0 {
            net.add_transition(&page).unwrap()
        } else {
            net.add_place(&page).unwrap()
        };
        let expected = if i % 3 == 0 {
            NodeRef::TransitionRef { page: page.clone(), obj_index: i }
        } else {
            NodeRef::PlaceRef { page: page.clone(), obj_index: i }
        };
        assert_eq!(node, expected);
        handles.push(node);
    }
    let xml = doc.to_xml().unwrap();
    let mut ids = ids_of(&xml, "place");
    ids.extend(ids_of(&xml, "transition"));
    assert_eq!(ids.len(), 23);
    let mut numbers: Vec<usize> =
        ids.iter().map(|id| id.strip_prefix("n0_p0_o").unwrap().parse().unwrap()).collect();
    numbers.sort();
    assert_eq!(numbers, (0..23).collect::<Vec<usize>>());
    assert!(xml.contains("<transition id=\"n0_p0_o21\"/>"));
    assert!(xml.contains("<place id=\"n0_p0_o22\"/>"));
    assert!(xml.contains("<place id=\"n0_p0_o10\"/>"));
}

#[test]
fn sub_pages_nest_and_are_numbered_by_their_parent() {
    let mut doc = PNMLDocument::new();
    let net_ref = doc.add_petri_net(None);
    let net = doc.petri_net_data(net_ref).unwrap();
    net.add_page(None);
    let top = net.add_page(None);
    let first = net.add_sub_page(None, &top).unwrap();
    let second = net.add_sub_page(None, &top).unwrap();
    let deep = net.add_sub_page(None, &second).unwrap();
    assert_ne!(first, second);
    assert_ne!(deep, second);
    net.add_place(&first).unwrap();
    net.add_place(&deep).unwrap();
    net.add_transition(&deep).unwrap();
    let xml = doc.to_xml().unwrap();
    assert_eq!(ids_of(&xml, "page"), vec!["n0_p0", "n0_p1", "n0_p1-0", "n0_p1-1", "n0_p1-1-0"]);
    assert_eq!(ids_of(&xml, "place"), vec!["n0_p1-0_o0", "n0_p1-1-0_o0"]);
    assert_eq!(ids_of(&xml, "transition"), vec!["n0_p1-1-0_o1"]);
    assert!(xml.contains(
        "<page id=\"n0_p1-1\"><page id=\"n0_p1-1-0\"><place id=\"n0_p1-1-0_o0\"/><transition id=\"n0_p1-1-0_o1\"/></page></page>"
    ));
}

#[test]
fn arcs_join_places_and_transitions_only() {
    let mut doc = PNMLDocument::new();
    let net_ref = doc.add_petri_net(None);
    let net = doc.petri_net_data(net_ref).unwrap();
    let page = net.add_page(None);
    let place_a = net.add_place(&page).unwrap();
    let place_b = net.add_place(&page).unwrap();
    let transition_a = net.add_transition(&page).unwrap();
    let transition_b = net.add_transition(&page).unwrap();
    assert!(matches!(net.add_arc(&page, &place_a, &place_b), Err(PetriError::BipartitionViolation)));
    assert!(matches!(net.add_arc(&page, &place_a, &place_a), Err(PetriError::BipartitionViolation)));
    assert!(matches!(net.add_arc(&page, &transition_a, &transition_b), Err(PetriError::BipartitionViolation)));
    assert!(matches!(net.add_arc(&page, &transition_b, &transition_b), Err(PetriError::BipartitionViolation)));
    let forth: ArcRef = net.add_arc(&page, &place_a, &transition_a).unwrap();
    let back: ArcRef = net.add_arc(&page, &transition_b, &place_b).unwrap();
    assert_ne!(forth, back);
    let xml = doc.to_xml().unwrap();
    assert_eq!(ids_of(&xml, "arc"), vec!["n0_p0_o4", "n0_p0_o5"]);
    assert!(xml.contains("<arc id=\"n0_p0_o4\" source=\"n0_p0_o0\" target=\"n0_p0_o2\"/>"));
    assert!(xml.contains("<arc id=\"n0_p0_o5\" source=\"n0_p0_o3\" target=\"n0_p0_o1\"/>"));
}

#[test]
fn same_kind_is_refused_before_anything_is_looked_up() {
    let mut doc = PNMLDocument::new();
    let net_ref = doc.add_petri_net(None);
    let net = doc.petri_net_data(net_ref).unwrap();
    let page = net.add_page(None);
    let lost = NodeRef::PlaceRef { page: page.clone(), obj_index: 40 };
    let gone = NodeRef::PlaceRef { page: page.clone(), obj_index: 41 };
    assert!(matches!(net.add_arc(&page, &lost, &gone), Err(PetriError::BipartitionViolation)));
}

#[test]
fn arc_ends_that_cannot_be_found() {
    let mut doc = PNMLDocument::new();
    let net_ref = doc.add_petri_net(None);
    let net = doc.petri_net_data(net_ref).unwrap();
    let page = net.add_page(None);
    let place = net.add_place(&page).unwrap();
    let transition = net.add_transition(&page).unwrap();
    let lost_place = NodeRef::PlaceRef { page: page.clone(), obj_index: 2 };
    let lost_transition = NodeRef::TransitionRef { page: page.clone(), obj_index: 7 };
    assert!(matches!(net.add_arc(&page, &lost_place, &transition), Err(PetriError::ObjectNotFound)));
    assert!(matches!(net.add_arc(&page, &place, &lost_transition), Err(PetriError::ObjectNotFound)));
    assert!(matches!(net.add_arc(&page, &lost_transition, &place), Err(PetriError::ObjectNotFound)));
    assert_eq!(ids_of(&doc.to_xml().unwrap(), "arc"), Vec::<String>::new());
}

fn page_of_another_net() -> PageRef {
    let mut doc = PNMLDocument::new();
    let net_ref = doc.add_petri_net(None);
    let net = doc.petri_net_data(net_ref).unwrap();
    net.add_page(None);
    net.add_page(None);
    let third = net.add_page(None);
    net.add_sub_page(None, &third).unwrap();
    net.add_sub_page(None, &third).unwrap()
}

#[test]
fn page_that_cannot_be_found() {
    let far = page_of_another_net();
    let mut doc = PNMLDocument::new();
    let net_ref = doc.add_petri_net(None);
    let net = doc.petri_net_data(net_ref).unwrap();
    assert!(matches!(net.add_place(&far), Err(PetriError::PageNotFound)));
    let page = net.add_page(None);
    let place = net.add_place(&page).unwrap();
    let transition = net.add_transition(&page).unwrap();
    net.add_page(None);
    net.add_page(None);
    assert!(matches!(net.add_transition(&far), Err(PetriError::PageNotFound)));
    assert!(matches!(net.add_sub_page(Some("x"), &far), Err(PetriError::PageNotFound)));
    assert!(matches!(net.add_arc(&far, &place, &transition), Err(PetriError::PageNotFound)));
    assert!(matches!(net.add_reference_node(&place, &far), Err(PetriError::PageNotFound)));
    let mut node = NodeRef::PlaceRef { page: far.clone(), obj_index: 0 };
    assert!(matches!(node.get_name(net), Err(PetriError::PageNotFound)));
    assert!(matches!(node.name(net, "n"), Err(PetriError::PageNotFound)));
    assert!(matches!(node.initial_marking(net, 1), Err(PetriError::PageNotFound)));
    assert!(matches!(net.add_reference_node(&node, &page), Err(PetriError::PageNotFound)));
    assert!(matches!(net.add_arc(&page, &node, &transition), Err(PetriError::ObjectNotFound)));
    let xml = doc.to_xml().unwrap();
    assert_eq!(ids_of(&xml, "page"), vec!["n0_p0", "n0_p1", "n0_p2"]);
    assert_eq!(ids_of(&xml, "place"), vec!["n0_p0_o0"]);
}

#[test]
fn object_that_cannot_be_found() {
    let mut doc = PNMLDocument::new();
    let net_ref = doc.add_petri_net(None);
    let net = doc.petri_net_data(net_ref).unwrap();
    let page = net.add_page(None);
    net.add_place(&page).unwrap();
    let mut lost = NodeRef::PlaceRef { page: page.clone(), obj_index: 1 };
    assert!(matches!(lost.get_name(net), Err(PetriError::ObjectNotFound)));
    assert!(matches!(lost.name(net, "n"), Err(PetriError::ObjectNotFound)));
    assert!(matches!(lost.initial_marking(net, 3), Err(PetriError::ObjectNotFound)));
    assert!(matches!(net.add_reference_node(&lost, &page), Err(PetriError::ObjectNotFound)));
    let mut found = NodeRef::PlaceRef { page: page.clone(), obj_index: 0 };
    found.initial_marking(net, 3).unwrap();
}

#[test]
fn names_are_set_and_read_back() {
    let mut doc = PNMLDocument::new();
    let net_ref = doc.add_petri_net(None);
    let net = doc.petri_net_data(net_ref).unwrap();
    let page = net.add_page(None);
    let mut place = net.add_place(&page).unwrap();
    let mut transition = net.add_transition(&page).unwrap();
    let mut arc = net.add_arc(&page, &place, &transition).unwrap();
    assert_eq!(place.get_name(net).unwrap(), None);
    assert_eq!(arc.get_name(net).unwrap(), None);
    place.name(net, "first").unwrap();
    place.name(net, "second").unwrap().initial_marking(net, 4).unwrap();
    arc.name(net, "weighted").unwrap().inscription(net, 9).unwrap();
    transition.name(net, "").unwrap();
    assert_eq!(place.get_name(net).unwrap(), Some("second"));
    assert_eq!(transition.get_name(net).unwrap(), Some(""));
    assert_eq!(arc.get_name(net).unwrap(), Some("weighted"));
    let xml = doc.to_xml().unwrap();
    assert!(xml.contains(
        "<place id=\"n0_p0_o0\"><name><text>second</text></name><initialMarking><text>4</text></initialMarking></place>"
    ));
    assert!(xml.contains("<transition id=\"n0_p0_o1\"><name><text></text></name></transition>"));
    assert!(xml.contains(
        "<arc id=\"n0_p0_o2\" source=\"n0_p0_o0\" target=\"n0_p0_o1\"><name><text>weighted</text></name><inscription><text>9</text></inscription></arc>"
    ));
}

#[test]
fn marking_is_for_places_only() {
    let mut doc = PNMLDocument::new();
    let net_ref = doc.add_petri_net(None);
    let net = doc.petri_net_data(net_ref).unwrap();
    let page = net.add_page(None);
    let mut place = net.add_place(&page).unwrap();
    let mut transition = net.add_transition(&page).unwrap();
    match transition.initial_marking(net, 1) {
        Err(PetriError::InvalidData(detail)) => {
            assert_eq!(detail, "transitions cannot have a marking")
        }
        _ => panic!("a transition was marked"),
    }
    let mut copy = net.add_reference_node(&place, &page).unwrap();
    match copy.initial_marking(net, 1) {
        Err(PetriError::InvalidData(detail)) => assert_eq!(detail, "only places can have a marking"),
        _ => panic!("a reference node was marked"),
    }
    let mut disguised = NodeRef::PlaceRef { page: page.clone(), obj_index: 1 };
    assert!(matches!(disguised.initial_marking(net, 1), Err(PetriError::InvalidData(_))));
    assert!(!doc.to_xml().unwrap().contains("initialMarking"));
    let net = doc.petri_net_data(net_ref).unwrap();
    place.initial_marking(net, 1).unwrap();
    assert_eq!(doc.to_xml().unwrap().matches("<initialMarking>").count(), 1);
}

#[test]
fn arc_handle_has_to_address_an_arc() {
    let mut other = PNMLDocument::new();
    let other_ref = other.add_petri_net(None);
    let other_net = other.petri_net_data(other_ref).unwrap();
    let other_page = other_net.add_page(None);
    let p = other_net.add_place(&other_page).unwrap();
    let t = other_net.add_transition(&other_page).unwrap();
    let mut far_arc = other_net.add_arc(&other_page, &p, &t).unwrap();

    let mut doc = PNMLDocument::new();
    let net_ref = doc.add_petri_net(None);
    let net = doc.petri_net_data(net_ref).unwrap();
    let page = net.add_page(None);
    assert!(matches!(far_arc.get_name(net), Err(PetriError::ObjectNotFound)));
    net.add_place(&page).unwrap();
    net.add_place(&page).unwrap();
    net.add_place(&page).unwrap();
    match far_arc.inscription(net, 2) {
        Err(PetriError::InvalidData(detail)) => {
            assert_eq!(detail, "the referenced object is no arc")
        }
        _ => panic!("a place was inscribed"),
    }
    assert!(matches!(far_arc.name(net, "a"), Err(PetriError::InvalidData(_))));
    assert!(matches!(far_arc.get_name(net), Err(PetriError::InvalidData(_))));
    let xml = doc.to_xml().unwrap();
    assert!(!xml.contains("inscription"));
    assert!(!xml.contains("<name>"));
}

#[test]
fn reference_nodes_take_the_kind_of_their_handle() {
    let mut doc = PNMLDocument::new();
    let net_ref = doc.add_petri_net(None);
    let net = doc.petri_net_data(net_ref).unwrap();
    let page = net.add_page(None);
    let place = net.add_place(&page).unwrap();
    let transition = net.add_transition(&page).unwrap();
    let mut place_copy = net.add_reference_node(&place, &page).unwrap();
    let transition_copy = net.add_reference_node(&transition, &page).unwrap();
    assert_eq!(place_copy, NodeRef::PlaceRef { page: page.clone(), obj_index: 2 });
    assert_eq!(transition_copy, NodeRef::TransitionRef { page: page.clone(), obj_index: 3 });
    place_copy.name(net, "again").unwrap();
    let arc = net.add_arc(&page, &place_copy, &transition_copy);
    assert!(arc.is_ok());
    let xml = doc.to_xml().unwrap();
    assert!(xml.contains(
        "<referencePlace id=\"n0_p0_o2\" ref=\"n0_p0_o0\"><name><text>again</text></name></referencePlace>"
    ));
    assert!(xml.contains("<referenceTransition id=\"n0_p0_o3\" ref=\"n0_p0_o1\"/>"));
    assert!(xml.contains(
        "<arc id=\"n0_p0_o4\" source=\"n0_p0_o2\" target=\"n0_p0_o3\"/>"
    ));
}

#[test]
fn handles_are_plain_values() {
    let mut doc = PNMLDocument::new();
    let net_ref = doc.add_petri_net(None);
    let copy = net_ref;
    let net = doc.petri_net_data(copy).unwrap();
    let page = net.add_page(None);
    let place = net.add_place(&page.clone()).unwrap();
    let mut twin = place.clone();
    twin.name(net, "shared").unwrap();
    assert_eq!(place.get_name(net).unwrap(), Some("shared"));
    assert_eq!(twin, place);
    let transition = net.add_transition(&page).unwrap();
    let arc = net.add_arc(&page, &place, &transition).unwrap();
    let mut arc_twin = arc.clone();
    arc_twin.inscription(net, 2).unwrap();
    assert_eq!(arc_twin, arc);
}

#[test]
fn ids_are_unique_within_a_net() {
    let mut doc = PNMLDocument::new();
    let net_ref = doc.add_petri_net(None);
    let net = doc.petri_net_data(net_ref).unwrap();
    let left = net.add_page(None);
    let right = net.add_page(None);
    let below = net.add_sub_page(None, &left).unwrap();
    let place = net.add_place(&left).unwrap();
    let transition = net.add_transition(&right).unwrap();
    for page in [&left, &right, &below] {
        net.add_reference_node(&place, page).unwrap();
        net.add_reference_node(&transition, page).unwrap();
        net.add_arc(page, &place, &transition).unwrap();
        net.add_place(page).unwrap();
    }
    let xml = doc.to_xml().unwrap();
    let mut ids = Vec::new();
    for element in
        ["page", "place", "transition", "arc", "referencePlace", "referenceTransition"]
    {
        ids.extend(ids_of(&xml, element));
    }
    assert_eq!(ids.len(), 3 + 2 + 12);
    let mut seen = ids.clone();
    seen.sort();
    seen.dedup();
    assert_eq!(seen.len(), ids.len());
    assert_eq!(
        ids_of(&xml, "referencePlace"),
        vec!["n0_p0_o1", "n0_p0-0_o0", "n0_p1_o1"]
    );
}
