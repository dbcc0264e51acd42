//! The invariant of a net, and the changes that keep it.
use vstd::prelude::*;
use crate::model::{
    descend, descend_replace, fresh_page, net_id, object_id, page_id, resolve,
    sub_page_id, NetView, NodeView, ObjectView, Payload,
};

verus! {

/// What labels an object may carry: a place at most one marking, an arc at
/// most one annotation, which is not zero, and anything else none.
pub open spec fn labels_fit(obj: ObjectView) -> bool {
    match obj.payload {
        Payload::Node(NodeView::Place) => obj.labels.len() == 0 || (obj.labels.len() == 1
            && obj.labels[0] is PTMarking),
        Payload::Arc { .. } => obj.labels.len() == 0 || (obj.labels.len() == 1
            && obj.labels[0] is PTAnnotation && obj.labels[0]->PTAnnotation_0 > 0),
        _ => obj.labels.len() == 0,
    }
}

/// What the `index`-th object of the page `parent` looks like: it is no
/// page, and its id is made of the page's id and its position.
pub open spec fn object_fits(parent: Seq<char>, index: nat, obj: ObjectView) -> bool {
    !obj.is_page() && obj.id == object_id(parent, index)
}

/// The invariant of an object and, for a page, of everything below it.
pub open spec fn well_formed_object(obj: ObjectView) -> bool
    decreases obj,
{
    &&& labels_fit(obj)
    &&& match obj.payload {
        Payload::Page(page) => {
            &&& forall|i: int|
                0 <= i < page.objects.len() ==> object_fits(obj.id, i as nat, #[trigger] page.objects[i])
                    && well_formed_object(page.objects[i])
            &&& forall|j: int|
                0 <= j < page.sub_pages.len() ==> (#[trigger] page.sub_pages[j]).is_page()
                    && page.sub_pages[j].id == sub_page_id(obj.id, j as nat) && well_formed_object(
                    page.sub_pages[j],
                )
        },
        _ => true,
    }
}

impl NetView {
    /// The invariant of a net: its top-level entries are pages, numbered in
    /// creation order, and each is well formed.
    pub open spec fn well_formed(self) -> bool {
        forall|i: int|
            0 <= i < self.pages.len() ==> (#[trigger] self.pages[i]).is_page() && self.pages[i].id
                == page_id(self.id, i as nat) && well_formed_object(self.pages[i])
    }
}

/// The invariant of a document: its nets are well formed and numbered in
/// creation order.
pub open spec fn well_formed_document(nets: Seq<NetView>) -> bool {
    forall|i: int|
        0 <= i < nets.len() ==> (#[trigger] nets[i]).well_formed() && nets[i].id == net_id(i as nat)
}

/// In a well-formed tree every walk that succeeds ends at a well-formed page
/// object, provided that it starts at one.
pub proof fn lemma_descend_well_formed(obj: ObjectView, path: Seq<usize>)
    requires
        well_formed_object(obj),
        obj.is_page(),
        descend(obj, path) is Ok,
    ensures
        well_formed_object(descend(obj, path)->Ok_0),
        descend(obj, path)->Ok_0.is_page(),
    decreases path.len(),
{
    if path.len() > 0 {
        lemma_descend_well_formed(obj.page().sub_pages[path[0] as int], path.drop_first());
    }
}

/// Replacing the page at the end of a walk by a well-formed page of the same
/// id keeps the tree well formed.
pub proof fn lemma_descend_replace_well_formed(obj: ObjectView, path: Seq<usize>, x: ObjectView)
    requires
        well_formed_object(obj),
        obj.is_page(),
        descend(obj, path) is Ok,
        x.id == descend(obj, path)->Ok_0.id,
        x.is_page(),
        well_formed_object(x),
    ensures
        well_formed_object(descend_replace(obj, path, x)),
        descend_replace(obj, path, x).is_page(),
        descend_replace(obj, path, x).id == obj.id,
    decreases path.len(),
{
    if path.len() > 0 {
        let page = obj.page();
        let i = path[0] as int;
        lemma_descend_replace_well_formed(page.sub_pages[i], path.drop_first(), x);
    }
}

/// Replacing a page of a well-formed net by a well-formed page of the same id
/// keeps the net well formed.
pub proof fn lemma_with_page_well_formed(net: NetView, path: Seq<usize>, x: ObjectView)
    requires
        net.well_formed(),
        net.page(path) is Ok,
        x.id == net.page(path)->Ok_0.id,
        x.is_page(),
        well_formed_object(x),
    ensures
        net.with_page(path, x).well_formed(),
{
    let i = path[0] as int;
    lemma_descend_replace_well_formed(net.pages[i], path.drop_first(), x);
}

/// In a well-formed net every page that can be resolved is well formed.
pub proof fn lemma_page_well_formed(net: NetView, path: Seq<usize>)
    requires
        net.well_formed(),
        resolve(net.pages, path) is Ok,
    ensures
        net.page(path) is Ok,
        well_formed_object(net.page(path)->Ok_0),
{
    lemma_descend_well_formed(net.pages[path[0] as int], path.drop_first());
}

/// In a well-formed net every object that can be found is well formed and
/// fits its position.
pub proof fn lemma_object_well_formed(net: NetView, path: Seq<usize>, index: usize)
    requires
        net.well_formed(),
        net.object(path, index) is Ok,
    ensures
        well_formed_object(net.object(path, index)->Ok_0),
        object_fits(net.page(path)->Ok_0.id, index as nat, net.object(path, index)->Ok_0),
{
    lemma_page_well_formed(net, path);
    let page = net.page(path)->Ok_0;
}

/// Appending a fitting, well-formed object to a page of a well-formed net
/// keeps the net well formed.
pub proof fn lemma_with_new_object_well_formed(net: NetView, path: Seq<usize>, x: ObjectView)
    requires
        net.well_formed(),
        net.page(path) is Ok,
        object_fits(net.page(path)->Ok_0.id, net.page(path)->Ok_0.page().objects.len(), x),
        well_formed_object(x),
    ensures
        net.with_new_object(path, x).well_formed(),
{
    lemma_page_well_formed(net, path);
    let page = net.page(path)->Ok_0;
    let after = page.with_new_object(x);
    lemma_with_page_well_formed(net, path, after);
}

/// Appending a well-formed page with the next id to the nested pages of a
/// page of a well-formed net keeps the net well formed.
pub proof fn lemma_with_new_sub_page_well_formed(net: NetView, path: Seq<usize>, x: ObjectView)
    requires
        net.well_formed(),
        net.page(path) is Ok,
        x.is_page(),
        x.id == sub_page_id(net.page(path)->Ok_0.id, net.page(path)->Ok_0.page().sub_pages.len()),
        well_formed_object(x),
    ensures
        net.with_new_sub_page(path, x).well_formed(),
{
    lemma_page_well_formed(net, path);
    let page = net.page(path)->Ok_0;
    let after = page.with_new_sub_page(x);
    lemma_with_page_well_formed(net, path, after);
}

/// Replacing an object of a well-formed net by an object of the same id and
/// kind, whose labels are the same or fit its kind, keeps the net well formed.
pub proof fn lemma_with_object_well_formed(
    net: NetView,
    path: Seq<usize>,
    index: usize,
    x: ObjectView,
)
    requires
        net.well_formed(),
        net.object(path, index) is Ok,
        x.id == net.object(path, index)->Ok_0.id,
        x.payload == net.object(path, index)->Ok_0.payload,
        labels_fit(x) || x.labels == net.object(path, index)->Ok_0.labels,
    ensures
        net.with_object(path, index, x).well_formed(),
{
    lemma_page_well_formed(net, path);
    let page = net.page(path)->Ok_0;
    let after = page.with_object(index as int, x);
    assert(well_formed_object(page.page().objects[index as int]));
    assert forall|i: int| 0 <= i < after.page().objects.len() implies object_fits(
        after.id,
        i as nat,
        #[trigger] after.page().objects[i],
    ) && well_formed_object(after.page().objects[i]) by {}
    lemma_with_page_well_formed(net, path, after);
}

/// Appending an empty page with the next id to a well-formed net keeps it
/// well formed.
pub proof fn lemma_with_new_page_well_formed(net: NetView, name: Option<Seq<char>>)
    requires
        net.well_formed(),
    ensures
        net.with_new_page(fresh_page(page_id(net.id, net.pages.len()), name)).well_formed(),
{
}

} // verus!
