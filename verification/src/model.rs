//! The mathematical model of a net: the page tree as nested sequences, the
//! handles as index paths, and what it means to look an object up or to put
//! another in its place.
use vstd::prelude::*;
use crate::labels::{without_annotations, without_markings, Label};
use crate::text::numbered;

verus! {

/// What a [`crate::PageRef`] stands for: the net it was made for and the index path to the page.
pub struct PageRefView {
    pub net: Seq<char>,
    pub path: Seq<usize>,
}

/// What a [`crate::NodeRef`] stands for: a tag, a page and a position in that page's objects.
pub enum NodeRefView {
    Place { page: PageRefView, index: usize },
    Transition { page: PageRefView, index: usize },
}

impl NodeRefView {
    pub open spec fn page(self) -> PageRefView {
        match self {
            NodeRefView::Place { page, .. } => page,
            NodeRefView::Transition { page, .. } => page,
        }
    }

    pub open spec fn index(self) -> usize {
        match self {
            NodeRefView::Place { index, .. } => index,
            NodeRefView::Transition { index, .. } => index,
        }
    }

    /// Two handles are of the same kind when both are tagged place or both transition.
    pub open spec fn same_kind(self, other: NodeRefView) -> bool {
        (self is Place) == (other is Place)
    }
}

/// What an [`crate::ArcRef`] stands for. `source` and `sink` are copies of the
/// handles the arc was created with; the arc itself stores only their ids.
pub struct ArcRefView {
    pub page: PageRefView,
    pub index: usize,
    pub source: NodeRefView,
    pub sink: NodeRefView,
}

/// The kinds of node.
pub enum NodeView {
    Place,
    Transition,
    PlaceReference { target: Seq<char>, handle: NodeRefView },
    TransitionReference { target: Seq<char>, handle: NodeRefView },
}

/// A page: its objects and, separately, its nested pages, both in creation order.
pub struct PageView {
    pub objects: Seq<ObjectView>,
    pub sub_pages: Seq<ObjectView>,
}

/// What an object is.
pub enum Payload {
    Page(PageView),
    Arc { source: Seq<char>, sink: Seq<char> },
    Node(NodeView),
}

/// The envelope shared by every addressable entity.
pub struct ObjectView {
    pub id: Seq<char>,
    pub name: Option<Seq<char>>,
    pub labels: Seq<Label>,
    pub payload: Payload,
}

/// A net: its id, its display name and its top-level pages.
pub struct NetView {
    pub id: Seq<char>,
    pub name: Option<Seq<char>>,
    pub pages: Seq<ObjectView>,
}

/// The errors of the library, with the detail text of those that carry one.
pub enum PetriErrorView {
    BipartitionViolation,
    PlaceNotFound,
    TransitionNotFound,
    PageNotFound,
    ObjectNotFound,
    NetNotFound,
    InvalidData(Seq<char>),
    CorruptedData(Seq<char>),
    XmlWriterError,
}

pub open spec fn empty_stack_message() -> Seq<char> {
    "Invalid PageRef: Stack was empty"@
}

pub open spec fn not_a_page_message() -> Seq<char> {
    "Object in the sub pages array which is no Page"@
}

pub open spec fn not_an_arc_message() -> Seq<char> {
    "the referenced object is no arc"@
}

pub open spec fn not_a_place_message() -> Seq<char> {
    "only places can have a marking"@
}

pub open spec fn transition_marking_message() -> Seq<char> {
    "transitions cannot have a marking"@
}

pub open spec fn zero_inscription_message() -> Seq<char> {
    "the multiplicity of an arc cannot be zero"@
}

/// A fresh object: no name, no labels.
pub open spec fn fresh_object(id: Seq<char>, payload: Payload) -> ObjectView {
    ObjectView { id, name: None, labels: Seq::empty(), payload }
}

/// A fresh, empty page.
pub open spec fn fresh_page(id: Seq<char>, name: Option<Seq<char>>) -> ObjectView {
    ObjectView {
        id,
        name,
        labels: Seq::empty(),
        payload: Payload::Page(PageView { objects: Seq::empty(), sub_pages: Seq::empty() }),
    }
}

/// Id of the `n`-th net of a document.
pub open spec fn net_id(n: nat) -> Seq<char> {
    numbered(Seq::empty(), "n"@, n)
}

/// Id of the `n`-th top-level page of the net `net`.
pub open spec fn page_id(net: Seq<char>, n: nat) -> Seq<char> {
    numbered(net, "_p"@, n)
}

/// Id of the `n`-th nested page of the page `parent`.
pub open spec fn sub_page_id(parent: Seq<char>, n: nat) -> Seq<char> {
    numbered(parent, "-"@, n)
}

/// Id of a place, transition, arc or reference node created as the `n`-th
/// object of the page `parent`.
pub open spec fn object_id(parent: Seq<char>, n: nat) -> Seq<char> {
    numbered(parent, "_o"@, n)
}

impl ObjectView {
    pub open spec fn is_page(self) -> bool {
        self.payload is Page
    }

    /// The page inside a page object.
    pub open spec fn page(self) -> PageView
        recommends
            self.is_page(),
    {
        self.payload->Page_0
    }

    pub open spec fn with_name(self, name: Option<Seq<char>>) -> ObjectView {
        ObjectView { name, ..self }
    }

    pub open spec fn with_labels(self, labels: Seq<Label>) -> ObjectView {
        ObjectView { labels, ..self }
    }

    /// This page object with `x` appended to its objects.
    pub open spec fn with_new_object(self, x: ObjectView) -> ObjectView
        recommends
            self.is_page(),
    {
        ObjectView {
            payload: Payload::Page(
                PageView { objects: self.page().objects.push(x), sub_pages: self.page().sub_pages },
            ),
            ..self
        }
    }

    /// This page object with `x` appended to its nested pages.
    pub open spec fn with_new_sub_page(self, x: ObjectView) -> ObjectView
        recommends
            self.is_page(),
    {
        ObjectView {
            payload: Payload::Page(
                PageView { objects: self.page().objects, sub_pages: self.page().sub_pages.push(x) },
            ),
            ..self
        }
    }

    /// This page object with its `index`-th object replaced by `x`.
    pub open spec fn with_object(self, index: int, x: ObjectView) -> ObjectView
        recommends
            self.is_page(),
            0 <= index < self.page().objects.len(),
    {
        ObjectView {
            payload: Payload::Page(
                PageView {
                    objects: self.page().objects.update(index, x),
                    sub_pages: self.page().sub_pages,
                },
            ),
            ..self
        }
    }
}

/// Walks down from `obj` along `path`: each index selects a nested page of
/// the page reached so far.
pub open spec fn descend(obj: ObjectView, path: Seq<usize>) -> Result<ObjectView, PetriErrorView>
    decreases path.len(),
{
    if path.len() == 0 {
        Ok(obj)
    } else {
        match obj.payload {
            Payload::Page(page) => if path[0] < page.sub_pages.len() {
                descend(page.sub_pages[path[0] as int], path.drop_first())
            } else {
                Err(PetriErrorView::PageNotFound)
            },
            _ => Err(PetriErrorView::CorruptedData(not_a_page_message())),
        }
    }
}

/// `obj` with the object that `descend` reaches along `path` replaced by `x`;
/// `obj` itself where the walk fails.
pub open spec fn descend_replace(obj: ObjectView, path: Seq<usize>, x: ObjectView) -> ObjectView
    decreases path.len(),
{
    if path.len() == 0 {
        x
    } else {
        match obj.payload {
            Payload::Page(page) => if path[0] < page.sub_pages.len() {
                ObjectView {
                    payload: Payload::Page(
                        PageView {
                            objects: page.objects,
                            sub_pages: page.sub_pages.update(
                                path[0] as int,
                                descend_replace(page.sub_pages[path[0] as int], path.drop_first(), x),
                            ),
                        },
                    ),
                    ..obj
                }
            } else {
                obj
            },
            _ => obj,
        }
    }
}

/// Address resolution: the first index of `path` selects a top-level page,
/// each further index a nested page of the page before it. An empty path is a
/// malformed handle, an index out of range finds no page, and an object on the
/// way that is no page means the tree is corrupted.
pub open spec fn resolve(pages: Seq<ObjectView>, path: Seq<usize>) -> Result<
    ObjectView,
    PetriErrorView,
> {
    if path.len() == 0 {
        Err(PetriErrorView::CorruptedData(empty_stack_message()))
    } else if path[0] >= pages.len() {
        Err(PetriErrorView::PageNotFound)
    } else {
        descend(pages[path[0] as int], path.drop_first())
    }
}

/// `pages` with the object that `resolve` finds replaced by `x`; `pages`
/// itself where resolution fails.
pub open spec fn replace(pages: Seq<ObjectView>, path: Seq<usize>, x: ObjectView) -> Seq<
    ObjectView,
> {
    if path.len() == 0 || path[0] >= pages.len() {
        pages
    } else {
        pages.update(path[0] as int, descend_replace(pages[path[0] as int], path.drop_first(), x))
    }
}

/// Putting back what is already there changes nothing.
pub proof fn lemma_descend_replace_same(obj: ObjectView, path: Seq<usize>)
    requires
        descend(obj, path) is Ok,
    ensures
        descend_replace(obj, path, descend(obj, path)->Ok_0) == obj,
    decreases path.len(),
{
    if path.len() > 0 {
        let page = obj.payload->Page_0;
        let i = path[0] as int;
        lemma_descend_replace_same(page.sub_pages[i], path.drop_first());
        assert(page.sub_pages.update(i, page.sub_pages[i]) =~= page.sub_pages);
    }
}

/// Putting back what is already there changes nothing.
pub proof fn lemma_replace_same(pages: Seq<ObjectView>, path: Seq<usize>)
    requires
        resolve(pages, path) is Ok,
    ensures
        replace(pages, path, resolve(pages, path)->Ok_0) == pages,
{
    let i = path[0] as int;
    lemma_descend_replace_same(pages[i], path.drop_first());
}

/// What was put in place is what is found there.
pub proof fn lemma_descend_after_replace(obj: ObjectView, path: Seq<usize>, x: ObjectView)
    requires
        descend(obj, path) is Ok,
    ensures
        descend(descend_replace(obj, path, x), path) == Ok::<ObjectView, PetriErrorView>(x),
    decreases path.len(),
{
    if path.len() > 0 {
        lemma_descend_after_replace(obj.page().sub_pages[path[0] as int], path.drop_first(), x);
    }
}

/// Of two replacements at the same place the second one stays.
pub proof fn lemma_descend_replace_twice(
    obj: ObjectView,
    path: Seq<usize>,
    x: ObjectView,
    y: ObjectView,
)
    requires
        descend(obj, path) is Ok,
    ensures
        descend_replace(descend_replace(obj, path, x), path, y) == descend_replace(obj, path, y),
    decreases path.len(),
{
    if path.len() > 0 {
        let subs = obj.page().sub_pages;
        let i = path[0] as int;
        lemma_descend_replace_twice(subs[i], path.drop_first(), x, y);
        let once = descend_replace(subs[i], path.drop_first(), x);
        let twice = descend_replace(once, path.drop_first(), y);
        assert(subs.update(i, once).update(i, twice) =~= subs.update(i, twice));
    }
}

/// What was put in place is what is found there.
pub proof fn lemma_resolve_after_replace(pages: Seq<ObjectView>, path: Seq<usize>, x: ObjectView)
    requires
        resolve(pages, path) is Ok,
    ensures
        resolve(replace(pages, path, x), path) == Ok::<ObjectView, PetriErrorView>(x),
{
    lemma_descend_after_replace(pages[path[0] as int], path.drop_first(), x);
}

/// Of two replacements at the same place the second one stays.
pub proof fn lemma_replace_twice(
    pages: Seq<ObjectView>,
    path: Seq<usize>,
    x: ObjectView,
    y: ObjectView,
)
    requires
        resolve(pages, path) is Ok,
    ensures
        replace(replace(pages, path, x), path, y) == replace(pages, path, y),
{
    let i = path[0] as int;
    lemma_descend_replace_twice(pages[i], path.drop_first(), x, y);
}

/// A walk fails only because a page is missing or because an object on the
/// way is no page.
pub proof fn lemma_descend_errors(obj: ObjectView, path: Seq<usize>)
    ensures
        descend(obj, path) matches Err(e) ==> e == PetriErrorView::PageNotFound || e
            == PetriErrorView::CorruptedData(not_a_page_message()),
    decreases path.len(),
{
    if path.len() > 0 && obj.is_page() && path[0] < obj.page().sub_pages.len() {
        lemma_descend_errors(obj.page().sub_pages[path[0] as int], path.drop_first());
    }
}

/// Resolving a page fails only with `PageNotFound` or `CorruptedData`.
pub proof fn lemma_page_errors(net: NetView, path: Seq<usize>)
    ensures
        net.page(path) matches Err(e) ==> e == PetriErrorView::PageNotFound || e
            == PetriErrorView::CorruptedData(not_a_page_message()) || e
            == PetriErrorView::CorruptedData(empty_stack_message()),
{
    if path.len() > 0 && path[0] < net.pages.len() {
        lemma_descend_errors(net.pages[path[0] as int], path.drop_first());
    }
}

/// Requires of a resolved object that it is a page.
pub open spec fn as_page(found: Result<ObjectView, PetriErrorView>) -> Result<
    ObjectView,
    PetriErrorView,
> {
    match found {
        Ok(obj) => if obj.is_page() {
            Ok(obj)
        } else {
            Err(PetriErrorView::CorruptedData(not_a_page_message()))
        },
        Err(e) => Err(e),
    }
}

/// Picks the `index`-th object of a resolved page.
pub open spec fn object_in(page: Result<ObjectView, PetriErrorView>, index: usize) -> Result<
    ObjectView,
    PetriErrorView,
> {
    match page {
        Ok(p) => if index < p.page().objects.len() {
            Ok(p.page().objects[index as int])
        } else {
            Err(PetriErrorView::ObjectNotFound)
        },
        Err(e) => Err(e),
    }
}

/// Requires of a resolved object that it is an arc.
pub open spec fn as_arc(found: Result<ObjectView, PetriErrorView>) -> Result<
    ObjectView,
    PetriErrorView,
> {
    match found {
        Ok(obj) => if obj.payload is Arc {
            Ok(obj)
        } else {
            Err(PetriErrorView::InvalidData(not_an_arc_message()))
        },
        Err(e) => Err(e),
    }
}

impl NetView {
    /// The page object that the path addresses.
    pub open spec fn page(self, path: Seq<usize>) -> Result<ObjectView, PetriErrorView> {
        as_page(resolve(self.pages, path))
    }

    /// This net with the object at `path` replaced by `x`.
    pub open spec fn with_page(self, path: Seq<usize>, x: ObjectView) -> NetView {
        NetView { pages: replace(self.pages, path, x), ..self }
    }

    /// The object at position `index` of the page at `path`.
    pub open spec fn object(self, path: Seq<usize>, index: usize) -> Result<
        ObjectView,
        PetriErrorView,
    > {
        object_in(self.page(path), index)
    }

    /// The object that a node handle addresses.
    pub open spec fn node(self, node: NodeRefView) -> Result<ObjectView, PetriErrorView> {
        self.object(node.page().path, node.index())
    }

    /// The object that an arc handle addresses, which has to be an arc.
    pub open spec fn arc(self, arc: ArcRefView) -> Result<ObjectView, PetriErrorView> {
        as_arc(self.object(arc.page.path, arc.index))
    }

    /// This net with the `index`-th object of the page at `path` replaced by `x`.
    pub open spec fn with_object(self, path: Seq<usize>, index: usize, x: ObjectView) -> NetView
        recommends
            self.object(path, index) is Ok,
    {
        self.with_page(path, self.page(path)->Ok_0.with_object(index as int, x))
    }

    /// This net with `x` appended to the objects of the page at `path`.
    pub open spec fn with_new_object(self, path: Seq<usize>, x: ObjectView) -> NetView
        recommends
            self.page(path) is Ok,
    {
        self.with_page(path, self.page(path)->Ok_0.with_new_object(x))
    }

    /// This net with `x` appended to the nested pages of the page at `path`.
    pub open spec fn with_new_sub_page(self, path: Seq<usize>, x: ObjectView) -> NetView
        recommends
            self.page(path) is Ok,
    {
        self.with_page(path, self.page(path)->Ok_0.with_new_sub_page(x))
    }

    /// This net with `x` appended to its top-level pages.
    pub open spec fn with_new_page(self, x: ObjectView) -> NetView {
        NetView { pages: self.pages.push(x), ..self }
    }

    /// The arc that is appended to the page at `page` for the endpoints
    /// `source` and `sink`, or the first reason why none is: the endpoints are
    /// of the same kind, one of them cannot be found, or the page cannot.
    pub open spec fn new_arc(
        self,
        page: PageRefView,
        source: NodeRefView,
        sink: NodeRefView,
    ) -> Result<ObjectView, PetriErrorView> {
        if source.same_kind(sink) {
            Err(PetriErrorView::BipartitionViolation)
        } else if self.node(source) is Err || self.node(sink) is Err {
            Err(PetriErrorView::ObjectNotFound)
        } else {
            match self.page(page.path) {
                Ok(p) => Ok(
                    fresh_object(
                        object_id(p.id, p.page().objects.len()),
                        Payload::Arc {
                            source: self.node(source)->Ok_0.id,
                            sink: self.node(sink)->Ok_0.id,
                        },
                    ),
                ),
                Err(e) => Err(e),
            }
        }
    }

    /// The reference node to the node at `subject` that is appended to the
    /// page at `page`, or the first reason why none is: the node cannot be
    /// found, or the page cannot.
    pub open spec fn new_reference(self, subject: NodeRefView, page: PageRefView) -> Result<
        ObjectView,
        PetriErrorView,
    > {
        match self.node(subject) {
            Ok(target) => match self.page(page.path) {
                Ok(p) => Ok(
                    fresh_object(
                        object_id(p.id, p.page().objects.len()),
                        Payload::Node(
                            if subject is Place {
                                NodeView::PlaceReference { target: target.id, handle: subject }
                            } else {
                                NodeView::TransitionReference { target: target.id, handle: subject }
                            },
                        ),
                    ),
                ),
                Err(e) => Err(e),
            },
            Err(e) => Err(e),
        }
    }

    /// The place that `node` addresses with its marking set to `count`, or
    /// the first reason why no marking can be set: the handle is tagged as a
    /// transition, the object cannot be found, or it is no place.
    pub open spec fn marked(self, node: NodeRefView, count: usize) -> Result<
        ObjectView,
        PetriErrorView,
    > {
        if node is Transition {
            Err(PetriErrorView::InvalidData(transition_marking_message()))
        } else {
            match self.node(node) {
                Ok(obj) => if obj.payload == Payload::Node(NodeView::Place) {
                    Ok(obj.with_labels(without_markings(obj.labels).push(Label::PTMarking(count))))
                } else {
                    Err(PetriErrorView::InvalidData(not_a_place_message()))
                },
                Err(e) => Err(e),
            }
        }
    }

    /// The arc that `arc` addresses with its annotation set to
    /// `multiplicity`, or the first reason why none can be set: the
    /// multiplicity is zero, or the arc cannot be found.
    pub open spec fn inscribed(self, arc: ArcRefView, multiplicity: usize) -> Result<
        ObjectView,
        PetriErrorView,
    > {
        if multiplicity == 0 {
            Err(PetriErrorView::InvalidData(zero_inscription_message()))
        } else {
            match self.arc(arc) {
                Ok(obj) => Ok(
                    obj.with_labels(
                        without_annotations(obj.labels).push(Label::PTAnnotation(multiplicity)),
                    ),
                ),
                Err(e) => Err(e),
            }
        }
    }

    /// An object that was put in place is found there, and of two objects
    /// put in the same place the second one stays.
    pub proof fn lemma_with_object_again(
        self,
        path: Seq<usize>,
        index: usize,
        x: ObjectView,
        y: ObjectView,
    )
        requires
            self.object(path, index) is Ok,
        ensures
            self.with_object(path, index, x).object(path, index) == Ok::<
                ObjectView,
                PetriErrorView,
            >(x),
            self.with_object(path, index, x).with_object(path, index, y) == self.with_object(
                path,
                index,
                y,
            ),
    {
        let page = self.page(path)->Ok_0;
        let first = page.with_object(index as int, x);
        let second = page.with_object(index as int, y);
        lemma_resolve_after_replace(self.pages, path, first);
        lemma_replace_twice(self.pages, path, first, second);
        assert(first.with_object(index as int, y) == second) by {
            assert(page.page().objects.update(index as int, x).update(index as int, y)
                =~= page.page().objects.update(index as int, y));
        }
    }

    /// Putting back the page that is already there changes nothing.
    pub proof fn lemma_with_page_same(self, path: Seq<usize>)
        requires
            resolve(self.pages, path) is Ok,
        ensures
            self.with_page(path, resolve(self.pages, path)->Ok_0) == self,
    {
        lemma_replace_same(self.pages, path);
    }

    /// Putting back the object that is already there changes nothing.
    pub proof fn lemma_with_object_same(self, path: Seq<usize>, index: usize)
        requires
            self.object(path, index) is Ok,
        ensures
            self.with_object(path, index, self.object(path, index)->Ok_0) == self,
    {
        let page = self.page(path)->Ok_0;
        assert(page.page().objects.update(index as int, page.page().objects[index as int])
            =~= page.page().objects);
        lemma_replace_same(self.pages, path);
    }
}

} // verus!
