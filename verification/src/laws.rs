//! What holds of every net that this library builds.
use vstd::prelude::*;
use crate::events::{
    attribute, labels_events, object_events, sound_document, sound_net, sound_object, start,
    text_element, XmlEventView,
};
use crate::growth::{grown_net, grown_object, lemma_grown_descend, lemma_grown_list_again};
use crate::ids::{
    lemma_object_ending, lemma_page_id_at, lemma_page_id_at_injective, page_id_at,
};
use crate::labels::{
    annotations, lemma_filter_twice, lemma_one_annotation, lemma_one_marking, markings, Label,
};
use crate::model::{
    descend, fresh_object, lemma_resolve_after_replace, not_a_page_message, object_id,
    resolve, zero_inscription_message, ArcRefView, NetView, NodeRefView, NodeView, ObjectView,
    Payload, PetriErrorView,
};
use crate::text::{decimal, lemma_number_of_numbered, number_of};
use crate::wellformed::{lemma_object_well_formed, well_formed_document, well_formed_object};

verus! {

/// The objects of one page carry the page's id and the number of objects
/// that the page had when they were created. So the ids of two of them
/// differ, and the one created later ends in the greater number.
pub proof fn lemma_ids_follow_creation(net: NetView, path: Seq<usize>, i: usize, j: usize)
    requires
        net.well_formed(),
        net.object(path, i) is Ok,
        net.object(path, j) is Ok,
        i < j,
    ensures
        net.object(path, i)->Ok_0.id == object_id(net.page(path)->Ok_0.id, i as nat),
        net.object(path, j)->Ok_0.id == object_id(net.page(path)->Ok_0.id, j as nat),
        net.object(path, i)->Ok_0.id != net.object(path, j)->Ok_0.id,
        number_of(net.page(path)->Ok_0.id, "_o"@, net.object(path, i)->Ok_0.id) < number_of(
            net.page(path)->Ok_0.id,
            "_o"@,
            net.object(path, j)->Ok_0.id,
        ),
{
    lemma_object_well_formed(net, path, i);
    lemma_object_well_formed(net, path, j);
    let parent = net.page(path)->Ok_0.id;
    lemma_number_of_numbered(parent, "_o"@, i as nat);
    lemma_number_of_numbered(parent, "_o"@, j as nat);
}

/// No two pages of a well-formed net have the same id.
pub proof fn lemma_page_ids_are_unique(net: NetView, a: Seq<usize>, b: Seq<usize>)
    requires
        net.well_formed(),
        net.page(a) is Ok,
        net.page(b) is Ok,
        net.page(a)->Ok_0.id == net.page(b)->Ok_0.id,
    ensures
        a == b,
{
    lemma_page_id_at(net, a);
    lemma_page_id_at(net, b);
    let none = Seq::<char>::empty();
    lemma_page_id_at_injective(net.id, a, none, b, none);
}

/// No two objects of a well-formed net have the same id, on whatever pages
/// they are.
pub proof fn lemma_object_ids_are_unique(
    net: NetView,
    a: Seq<usize>,
    i: usize,
    b: Seq<usize>,
    j: usize,
)
    requires
        net.well_formed(),
        net.object(a, i) is Ok,
        net.object(b, j) is Ok,
        net.object(a, i)->Ok_0.id == net.object(b, j)->Ok_0.id,
    ensures
        a == b,
        i == j,
{
    lemma_object_well_formed(net, a, i);
    lemma_object_well_formed(net, b, j);
    lemma_page_id_at(net, a);
    lemma_page_id_at(net, b);
    let s = "_o"@ + decimal(i as nat);
    let t = "_o"@ + decimal(j as nat);
    lemma_object_ending(i as nat);
    lemma_object_ending(j as nat);
    assert(object_id(page_id_at(net.id, a), i as nat) =~= page_id_at(net.id, a) + s);
    assert(object_id(page_id_at(net.id, b), j as nat) =~= page_id_at(net.id, b) + t);
    lemma_page_id_at_injective(net.id, a, s, b, t);
    lemma_number_of_numbered(page_id_at(net.id, a), "_o"@, i as nat);
    lemma_number_of_numbered(page_id_at(net.id, a), "_o"@, j as nat);
}

/// No object of a well-formed net has the id of a page of the net.
pub proof fn lemma_page_and_object_ids_differ(
    net: NetView,
    a: Seq<usize>,
    b: Seq<usize>,
    j: usize,
)
    requires
        net.well_formed(),
        net.page(a) is Ok,
        net.object(b, j) is Ok,
    ensures
        net.page(a)->Ok_0.id != net.object(b, j)->Ok_0.id,
{
    lemma_object_well_formed(net, b, j);
    lemma_page_id_at(net, a);
    lemma_page_id_at(net, b);
    let none = Seq::<char>::empty();
    let t = "_o"@ + decimal(j as nat);
    lemma_object_ending(j as nat);
    assert(object_id(page_id_at(net.id, b), j as nat) =~= page_id_at(net.id, b) + t);
    if net.page(a)->Ok_0.id == net.object(b, j)->Ok_0.id {
        lemma_page_id_at_injective(net.id, a, none, b, t);
    }
}

/// An arc between two handles of the same kind is refused for that reason,
/// whatever else holds; between a place and a transition, in either
/// direction, an arc is made wherever both ends and the page can be found.
pub proof fn lemma_arcs_are_bipartite(
    net: NetView,
    page: crate::model::PageRefView,
    source: NodeRefView,
    sink: NodeRefView,
)
    ensures
        source.same_kind(sink) ==> net.new_arc(page, source, sink) == Err::<
            ObjectView,
            PetriErrorView,
        >(PetriErrorView::BipartitionViolation),
        !source.same_kind(sink) && net.node(source) is Ok && net.node(sink) is Ok && net.page(
            page.path,
        ) is Ok ==> net.new_arc(page, source, sink) is Ok,
        !source.same_kind(sink) ==> net.new_arc(page, source, sink) != Err::<
            ObjectView,
            PetriErrorView,
        >(PetriErrorView::BipartitionViolation),
{
    crate::model::lemma_page_errors(net, page.path);
}

/// Setting the marking of a place a second time replaces the first marking:
/// the place then has exactly one marking, that of the second call, and is
/// what it would be had the first call not been made.
pub proof fn lemma_marking_is_replaced(
    net: NetView,
    node: NodeRefView,
    first: usize,
    second: usize,
)
    requires
        net.marked(node, first) is Ok,
    ensures
        ({
            let once = net.with_object(
                node.page().path,
                node.index(),
                net.marked(node, first)->Ok_0,
            );
            &&& once.marked(node, second) == net.marked(node, second)
            &&& once.marked(node, second) matches Ok(place) && markings(place.labels) == seq![
                Label::PTMarking(second),
            ]
            &&& once.with_object(node.page().path, node.index(), once.marked(node, second)->Ok_0)
                == net.with_object(node.page().path, node.index(), net.marked(node, second)->Ok_0)
        }),
{
    let before = net.node(node)->Ok_0;
    let after_first = net.marked(node, first)->Ok_0;
    let after_second = net.marked(node, second)->Ok_0;
    net.lemma_with_object_again(node.page().path, node.index(), after_first, after_second);
    let not_m = |l: Label| !l.is_marking();
    let kept = before.labels.filter(not_m);
    kept.lemma_filter_push(Label::PTMarking(first), not_m);
    lemma_filter_twice(before.labels, not_m, not_m);
    lemma_one_marking(before.labels, second);
}

/// Setting the inscription of an arc a second time replaces the first one.
pub proof fn lemma_inscription_is_replaced(
    net: NetView,
    arc: ArcRefView,
    first: usize,
    second: usize,
)
    requires
        net.inscribed(arc, first) is Ok,
        second > 0,
    ensures
        ({
            let once = net.with_object(arc.page.path, arc.index, net.inscribed(arc, first)->Ok_0);
            &&& once.inscribed(arc, second) == net.inscribed(arc, second)
            &&& once.inscribed(arc, second) matches Ok(x) && annotations(x.labels) == seq![
                Label::PTAnnotation(second),
            ]
        }),
{
    let before = net.arc(arc)->Ok_0;
    let after_first = net.inscribed(arc, first)->Ok_0;
    let after_second = net.inscribed(arc, second)->Ok_0;
    net.lemma_with_object_again(arc.page.path, arc.index, after_first, after_second);
    let not_a = |l: Label| !l.is_annotation();
    let kept = before.labels.filter(not_a);
    kept.lemma_filter_push(Label::PTAnnotation(first), not_a);
    lemma_filter_twice(before.labels, not_a, not_a);
    lemma_one_annotation(before.labels, second);
}

/// A multiplicity of zero is refused whatever the arc, so that the net and
/// with it any annotation of the arc stay as they are.
pub proof fn lemma_zero_inscription_is_refused(net: NetView, arc: ArcRefView)
    ensures
        net.inscribed(arc, 0) == Err::<ObjectView, PetriErrorView>(
            PetriErrorView::InvalidData(zero_inscription_message()),
        ),
{
}

/// The walk along `path` taken in two parts: first `k` steps, then the rest.
pub proof fn lemma_descend_in_two(obj: ObjectView, path: Seq<usize>, k: int)
    requires
        0 <= k <= path.len(),
    ensures
        descend(obj, path) == match descend(obj, path.take(k)) {
            Ok(found) => descend(found, path.skip(k)),
            Err(e) => Err(e),
        },
    decreases k,
{
    if k == 0 {
        assert(path.skip(0) =~= path);
    } else {
        let head = path.take(k);
        assert(head.drop_first() =~= path.drop_first().take(k - 1));
        assert(path.skip(k) =~= path.drop_first().skip(k - 1));
        if obj.is_page() && path[0] < obj.page().sub_pages.len() {
            lemma_descend_in_two(obj.page().sub_pages[path[0] as int], path.drop_first(), k - 1);
        }
    }
}

/// A path that addresses an object that is no page, be it with all its
/// indices or with the first `k` of them, resolves to no page: the tree is
/// reported as corrupted.
pub proof fn lemma_no_page_is_corrupted(net: NetView, path: Seq<usize>, k: int)
    requires
        1 <= k <= path.len(),
        resolve(net.pages, path.take(k)) is Ok,
        !resolve(net.pages, path.take(k))->Ok_0.is_page(),
    ensures
        net.page(path) == Err::<ObjectView, PetriErrorView>(
            PetriErrorView::CorruptedData(not_a_page_message()),
        ),
{
    let head = path.take(k);
    assert(head.drop_first() =~= path.drop_first().take(k - 1));
    lemma_descend_in_two(net.pages[path[0] as int], path.drop_first(), k - 1);
}

/// In a well-formed net no slot for a page holds anything else, so that
/// writing it never fails for the net's sake.
pub proof fn lemma_well_formed_is_sound(net: NetView)
    requires
        net.well_formed(),
    ensures
        sound_net(net),
{
    assert forall|i: int| 0 <= i < net.pages.len() implies sound_object(
        #[trigger] net.pages[i],
    ) && net.pages[i].is_page() by {
        lemma_well_formed_object_is_sound(net.pages[i]);
    }
}

/// In a well-formed object no slot for a page holds anything else.
pub proof fn lemma_well_formed_object_is_sound(obj: ObjectView)
    requires
        well_formed_object(obj),
    ensures
        sound_object(obj),
    decreases obj,
{
    if obj.is_page() {
        let page = obj.page();
        assert forall|i: int| 0 <= i < page.objects.len() implies sound_object(
            #[trigger] page.objects[i],
        ) by {}
        assert forall|j: int| 0 <= j < page.sub_pages.len() implies sound_object(
            #[trigger] page.sub_pages[j],
        ) && page.sub_pages[j].is_page() by {
            lemma_well_formed_object_is_sound(page.sub_pages[j]);
        }
    }
}

/// A document stays well formed while one of its nets is worked on, as long
/// as the net stays well formed and keeps its id, which is what every
/// operation on a net sees to.
pub proof fn lemma_document_stays_well_formed(nets: Seq<NetView>, i: int, net: NetView)
    requires
        well_formed_document(nets),
        0 <= i < nets.len(),
        net.well_formed(),
        grown_net(nets[i], net),
    ensures
        well_formed_document(nets.update(i, net)),
{
}

/// In a well-formed document no slot for a page holds anything else, so
/// that writing it never fails for the document's sake.
pub proof fn lemma_well_formed_document_is_sound(nets: Seq<NetView>)
    requires
        well_formed_document(nets),
    ensures
        sound_document(nets),
{
    assert forall|i: int| 0 <= i < nets.len() implies sound_net(#[trigger] nets[i]) by {
        lemma_well_formed_is_sound(nets[i]);
    }
}

/// The handle that comes with a new object addresses that object: it is
/// found at the position that was the number of objects of its page.
pub proof fn lemma_new_object_is_found(net: NetView, path: Seq<usize>, x: ObjectView)
    requires
        net.page(path) is Ok,
        net.page(path)->Ok_0.page().objects.len() <= usize::MAX,
    ensures
        net.with_new_object(path, x).object(
            path,
            net.page(path)->Ok_0.page().objects.len() as usize,
        ) == Ok::<ObjectView, PetriErrorView>(x),
{
    let page = net.page(path)->Ok_0;
    lemma_resolve_after_replace(net.pages, path, page.with_new_object(x));
}

/// The handle that comes with a new nested page addresses that page: the
/// path of its parent and the position that was the number of the parent's
/// nested pages.
pub proof fn lemma_new_sub_page_is_found(net: NetView, path: Seq<usize>, x: ObjectView)
    requires
        net.page(path) is Ok,
        net.page(path)->Ok_0.page().sub_pages.len() <= usize::MAX,
        x.is_page(),
    ensures
        net.with_new_sub_page(path, x).page(
            path.push(net.page(path)->Ok_0.page().sub_pages.len() as usize),
        ) == Ok::<ObjectView, PetriErrorView>(x),
{
    let page = net.page(path)->Ok_0;
    let n = page.page().sub_pages.len() as usize;
    let after = net.with_new_sub_page(path, x);
    lemma_resolve_after_replace(net.pages, path, page.with_new_sub_page(x));
    let longer = path.push(n);
    assert(longer.drop_first().take(path.len() - 1) =~= path.drop_first());
    lemma_descend_in_two(after.pages[path[0] as int], longer.drop_first(), path.len() - 1);
    reveal_with_fuel(descend, 2);
}

/// The handle that comes with a new top-level page addresses that page.
pub proof fn lemma_new_page_is_found(net: NetView, x: ObjectView)
    requires
        net.pages.len() <= usize::MAX,
        x.is_page(),
    ensures
        net.with_new_page(x).page(seq![net.pages.len() as usize]) == Ok::<
            ObjectView,
            PetriErrorView,
        >(x),
{
}

/// A net that has grown from a grown net has grown from the first: however
/// many operations a net has seen, it is the net that it was, grown.
pub proof fn lemma_growth_adds_up(first: NetView, second: NetView, third: NetView)
    requires
        grown_net(first, second),
        grown_net(second, third),
    ensures
        grown_net(first, third),
{
    lemma_grown_list_again(first.pages, second.pages, third.pages);
}

/// A page handle stays valid: the page that a path addresses in a net is
/// addressed by that path in every net that has grown from it, and is
/// there what has grown from the page.
pub proof fn lemma_page_stays(before: NetView, after: NetView, path: Seq<usize>)
    requires
        grown_net(before, after),
        before.page(path) is Ok,
    ensures
        after.page(path) is Ok,
        grown_object(before.page(path)->Ok_0, after.page(path)->Ok_0),
        after.page(path)->Ok_0.id == before.page(path)->Ok_0.id,
{
    let i = path[0] as int;
    lemma_grown_descend(before.pages[i], after.pages[i], path.drop_first());
}

/// A node or arc handle stays valid: the object that a path and a position
/// address in a net is addressed by them in every net that has grown from
/// it. There it has the same id and is of the same kind: a place is a place,
/// an arc is an arc with the same ends.
pub proof fn lemma_object_stays(before: NetView, after: NetView, path: Seq<usize>, index: usize)
    requires
        grown_net(before, after),
        before.object(path, index) is Ok,
    ensures
        after.object(path, index) is Ok,
        grown_object(before.object(path, index)->Ok_0, after.object(path, index)->Ok_0),
        after.object(path, index)->Ok_0.id == before.object(path, index)->Ok_0.id,
        !before.object(path, index)->Ok_0.is_page() ==> after.object(path, index)->Ok_0.payload
            == before.object(path, index)->Ok_0.payload,
{
    lemma_page_stays(before, after, path);
}

/// A place that no marking was set for is written without an
/// `initialMarking` element: as an element with its id and nothing in it.
pub proof fn lemma_fresh_place_events(id: Seq<char>)
    ensures
        object_events(fresh_object(id, Payload::Node(NodeView::Place))) == seq![
            start("place"@, seq![attribute("id"@, id)]),
            XmlEventView::EndElement,
        ],
{
}

/// A place whose only label is a marking is written with one
/// `initialMarking` element that holds the count in decimal, zero included.
pub proof fn lemma_marked_place_events(id: Seq<char>, count: usize)
    ensures
        object_events(
            fresh_object(id, Payload::Node(NodeView::Place)).with_labels(
                seq![Label::PTMarking(count)],
            ),
        ) == seq![start("place"@, seq![attribute("id"@, id)])] + text_element(
            "initialMarking"@,
            decimal(count as nat),
        ) + seq![XmlEventView::EndElement],
{
    reveal_with_fuel(labels_events, 2);
}

} // verus!
