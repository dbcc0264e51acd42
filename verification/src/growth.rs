//! Nothing is ever removed from a net: what an operation leaves behind is
//! the net as it was, grown. This is why a handle, once it addresses an
//! object, addresses that object for good.
use vstd::prelude::*;
use crate::model::{descend, descend_replace, resolve, NetView, ObjectView, Payload};

verus! {

/// `after` is `before`, grown: it has the same id and is of the same kind,
/// and where it is a page, every object and every nested page that it had
/// is still in its position, grown in turn. Names and labels may differ.
pub open spec fn grown_object(before: ObjectView, after: ObjectView) -> bool
    decreases before,
{
    &&& after.id == before.id
    &&& match before.payload {
        Payload::Page(page) => after.is_page() && grown_list(page.objects, after.page().objects)
            && grown_list(page.sub_pages, after.page().sub_pages),
        _ => after.payload == before.payload,
    }
}

/// `after` holds every entry of `before` in its position, grown.
pub open spec fn grown_list(before: Seq<ObjectView>, after: Seq<ObjectView>) -> bool
    decreases before,
{
    &&& before.len() <= after.len()
    &&& forall|i: int| 0 <= i < before.len() ==> grown_object(#[trigger] before[i], after[i])
}

/// `after` is the net `before`, grown.
pub open spec fn grown_net(before: NetView, after: NetView) -> bool {
    after.id == before.id && grown_list(before.pages, after.pages)
}

/// Every object is itself, grown.
pub proof fn lemma_grown_same(obj: ObjectView)
    ensures
        grown_object(obj, obj),
    decreases obj,
{
    if obj.is_page() {
        let page = obj.page();
        assert forall|i: int| 0 <= i < page.objects.len() implies grown_object(
            #[trigger] page.objects[i],
            page.objects[i],
        ) by {
            lemma_grown_same(page.objects[i]);
        }
        assert forall|i: int| 0 <= i < page.sub_pages.len() implies grown_object(
            #[trigger] page.sub_pages[i],
            page.sub_pages[i],
        ) by {
            lemma_grown_same(page.sub_pages[i]);
        }
    }
}

/// Every list is itself, grown.
pub proof fn lemma_grown_list_same(list: Seq<ObjectView>)
    ensures
        grown_list(list, list),
{
    assert forall|i: int| 0 <= i < list.len() implies grown_object(#[trigger] list[i], list[i]) by {
        lemma_grown_same(list[i]);
    }
}

/// What has grown from something grown has grown from the first.
pub proof fn lemma_grown_again(first: ObjectView, second: ObjectView, third: ObjectView)
    requires
        grown_object(first, second),
        grown_object(second, third),
    ensures
        grown_object(first, third),
    decreases first,
{
    if first.is_page() {
        lemma_grown_list_again(first.page().objects, second.page().objects, third.page().objects);
        lemma_grown_list_again(
            first.page().sub_pages,
            second.page().sub_pages,
            third.page().sub_pages,
        );
    }
}

/// What has grown from something grown has grown from the first.
pub proof fn lemma_grown_list_again(
    first: Seq<ObjectView>,
    second: Seq<ObjectView>,
    third: Seq<ObjectView>,
)
    requires
        grown_list(first, second),
        grown_list(second, third),
    ensures
        grown_list(first, third),
    decreases first,
{
    assert forall|i: int| 0 <= i < first.len() implies grown_object(
        #[trigger] first[i],
        third[i],
    ) by {
        lemma_grown_again(first[i], second[i], third[i]);
    }
}

/// A walk that succeeds in an object succeeds in what has grown from it, and
/// ends at what has grown from the object that it ended at before.
pub proof fn lemma_grown_descend(before: ObjectView, after: ObjectView, path: Seq<usize>)
    requires
        grown_object(before, after),
        descend(before, path) is Ok,
    ensures
        descend(after, path) is Ok,
        grown_object(descend(before, path)->Ok_0, descend(after, path)->Ok_0),
    decreases path.len(),
{
    if path.len() > 0 {
        let i = path[0] as int;
        lemma_grown_descend(before.page().sub_pages[i], after.page().sub_pages[i], path.drop_first());
    }
}

/// Putting something grown in the place of an object leaves its surroundings grown.
pub proof fn lemma_grown_replace(obj: ObjectView, path: Seq<usize>, x: ObjectView)
    requires
        descend(obj, path) is Ok,
        grown_object(descend(obj, path)->Ok_0, x),
    ensures
        grown_object(obj, descend_replace(obj, path, x)),
    decreases path.len(),
{
    if path.len() > 0 {
        let page = obj.page();
        let i = path[0] as int;
        lemma_grown_replace(page.sub_pages[i], path.drop_first(), x);
        let after = descend_replace(obj, path, x);
        lemma_grown_list_same(page.objects);
        assert forall|j: int| 0 <= j < page.sub_pages.len() implies grown_object(
            #[trigger] page.sub_pages[j],
            after.page().sub_pages[j],
        ) by {
            if j != i {
                lemma_grown_same(page.sub_pages[j]);
            }
        }
    }
}

impl NetView {
    /// Putting something grown in the place of an object leaves the net grown.
    pub proof fn lemma_with_page_grown(self, path: Seq<usize>, x: ObjectView)
        requires
            resolve(self.pages, path) is Ok,
            grown_object(resolve(self.pages, path)->Ok_0, x),
        ensures
            grown_net(self, self.with_page(path, x)),
    {
        let i = path[0] as int;
        lemma_grown_replace(self.pages[i], path.drop_first(), x);
        let after = self.with_page(path, x);
        assert forall|j: int| 0 <= j < self.pages.len() implies grown_object(
            #[trigger] self.pages[j],
            after.pages[j],
        ) by {
            if j != i {
                lemma_grown_same(self.pages[j]);
            }
        }
    }

    /// A new object at the end of a page leaves the net grown.
    pub proof fn lemma_with_new_object_grown(self, path: Seq<usize>, x: ObjectView)
        requires
            self.page(path) is Ok,
        ensures
            grown_net(self, self.with_new_object(path, x)),
    {
        let page = self.page(path)->Ok_0;
        let after = page.with_new_object(x);
        lemma_grown_list_same(page.page().sub_pages);
        assert forall|j: int| 0 <= j < page.page().objects.len() implies grown_object(
            #[trigger] page.page().objects[j],
            after.page().objects[j],
        ) by {
            lemma_grown_same(page.page().objects[j]);
        }
        self.lemma_with_page_grown(path, after);
    }

    /// A new nested page at the end of a page leaves the net grown.
    pub proof fn lemma_with_new_sub_page_grown(self, path: Seq<usize>, x: ObjectView)
        requires
            self.page(path) is Ok,
        ensures
            grown_net(self, self.with_new_sub_page(path, x)),
    {
        let page = self.page(path)->Ok_0;
        let after = page.with_new_sub_page(x);
        lemma_grown_list_same(page.page().objects);
        assert forall|j: int| 0 <= j < page.page().sub_pages.len() implies grown_object(
            #[trigger] page.page().sub_pages[j],
            after.page().sub_pages[j],
        ) by {
            lemma_grown_same(page.page().sub_pages[j]);
        }
        self.lemma_with_page_grown(path, after);
    }

    /// Another name or other labels on an object leave the net grown.
    pub proof fn lemma_with_object_grown(self, path: Seq<usize>, index: usize, x: ObjectView)
        requires
            self.object(path, index) is Ok,
            grown_object(self.object(path, index)->Ok_0, x),
        ensures
            grown_net(self, self.with_object(path, index, x)),
    {
        let page = self.page(path)->Ok_0;
        let after = page.with_object(index as int, x);
        lemma_grown_list_same(page.page().sub_pages);
        assert forall|j: int| 0 <= j < page.page().objects.len() implies grown_object(
            #[trigger] page.page().objects[j],
            after.page().objects[j],
        ) by {
            if j != index {
                lemma_grown_same(page.page().objects[j]);
            }
        }
        self.lemma_with_page_grown(path, after);
    }

    /// A new top-level page leaves the net grown.
    pub proof fn lemma_with_new_page_grown(self, x: ObjectView)
        ensures
            grown_net(self, self.with_new_page(x)),
    {
        let after = self.with_new_page(x);
        assert forall|j: int| 0 <= j < self.pages.len() implies grown_object(
            #[trigger] self.pages[j],
            after.pages[j],
        ) by {
            lemma_grown_same(self.pages[j]);
        }
    }

    /// Every net is itself, grown.
    pub proof fn lemma_grown_net_same(self)
        ensures
            grown_net(self, self),
    {
        lemma_grown_list_same(self.pages);
    }
}

} // verus!
