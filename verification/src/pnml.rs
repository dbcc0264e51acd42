//! The object model of a net, the handles that address into it, and the
//! operations that build it.
use vstd::prelude::*;
use vstd::string::StringExecFns;
use crate::error::PetriError;
use crate::growth::{grown_net, lemma_grown_same};
use crate::labels::Label;
use crate::model::{
    descend, descend_replace, fresh_object, fresh_page, lemma_page_errors, net_id, object_id,
    page_id, resolve, sub_page_id, ArcRefView, NetView, NodeRefView, NodeView,
    ObjectView, PageRefView, PageView, Payload, PetriErrorView,
};
use crate::text::numbered_string;
use crate::wellformed::{
    lemma_with_new_object_well_formed, lemma_with_new_page_well_formed,
    lemma_with_new_sub_page_well_formed, lemma_with_object_well_formed, well_formed_document,
};

verus! {

/// An optional display name.
#[derive(Debug)]
pub struct PNMLName(pub(crate) Option<String>);

/// An identifier, unique among the objects that one page creates.
#[derive(PartialEq, Eq, Debug)]
pub struct PNMLID(pub(crate) String);

/// The version of the format that a net is written in.
#[derive(Debug)]
pub(crate) enum PNMLVersion {
    V2009,
}

#[derive(Debug)]
pub(crate) struct Page {
    pub(crate) objects: Vec<ObjectBase>,
    pub(crate) sub_pages: Vec<ObjectBase>,
}

#[derive(Debug)]
pub(crate) struct ObjectBase {
    pub(crate) id: PNMLID,
    pub(crate) name: PNMLName,
    pub(crate) labels: Option<Vec<Label>>,
    pub(crate) object: Object,
}

#[derive(Debug)]
pub(crate) enum Object {
    Page(Page),
    Arc(PNMLID, PNMLID),
    Node(Node),
}

#[derive(Debug)]
pub(crate) enum Node {
    Place,
    Transition,
    PlaceRef(PNMLID, NodeRef),
    TransitionRef(PNMLID, NodeRef),
}

/// A whole document: an ordered list of nets.
#[derive(Debug)]
pub struct PNMLDocument {
    pub(crate) petri_nets: Vec<PetriNet>,
}

/// Handle of a net: its position in the document.
#[derive(PartialEq, Eq, Debug, Copy, Clone)]
pub struct PetriNetRef(pub(crate) usize);

/// Handle of a page.
#[derive(PartialEq, Eq, Debug)]
pub struct PageRef {
    pub(crate) net: PNMLID,
    /// The path to the (sub) page as stack of indices.
    /// The first element of the stack is the index of petri net pages.
    /// The n+1th is the index of the sub page in the nth page.
    pub(crate) page_stack: Vec<usize>,
}

/// Handle of a place or a transition.
#[derive(PartialEq, Eq, Debug)]
pub enum NodeRef {
    PlaceRef { page: PageRef, obj_index: usize },
    TransitionRef { page: PageRef, obj_index: usize },
}

/// Handle of an arc.
#[derive(PartialEq, Eq, Debug)]
pub struct ArcRef {
    pub(crate) page: PageRef,
    pub(crate) obj_index: usize,
    pub(crate) source: NodeRef,
    pub(crate) sink: NodeRef,
}

/// A net.
#[derive(Debug)]
pub struct PetriNet {
    pub(crate) id: PNMLID,
    pub(crate) typ: PNMLVersion,
    pub(crate) name: PNMLName,
    pub(crate) pages: Vec<ObjectBase>,
}

impl View for PNMLName {
    type V = Option<Seq<char>>;

    open(crate) spec fn view(&self) -> Option<Seq<char>> {
        match self.0 {
            Some(name) => Some(name@),
            None => None,
        }
    }
}

impl View for PNMLID {
    type V = Seq<char>;

    open(crate) spec fn view(&self) -> Seq<char> {
        self.0@
    }
}

impl View for PetriNetRef {
    type V = usize;

    open(crate) spec fn view(&self) -> usize {
        self.0
    }
}

impl View for PageRef {
    type V = PageRefView;

    open(crate) spec fn view(&self) -> PageRefView {
        PageRefView { net: self.net@, path: self.page_stack@ }
    }
}

impl View for NodeRef {
    type V = NodeRefView;

    open spec fn view(&self) -> NodeRefView {
        match self {
            NodeRef::PlaceRef { page, obj_index } => NodeRefView::Place {
                page: page@,
                index: *obj_index,
            },
            NodeRef::TransitionRef { page, obj_index } => NodeRefView::Transition {
                page: page@,
                index: *obj_index,
            },
        }
    }
}

impl View for ArcRef {
    type V = ArcRefView;

    open(crate) spec fn view(&self) -> ArcRefView {
        ArcRefView {
            page: self.page@,
            index: self.obj_index,
            source: self.source@,
            sink: self.sink@,
        }
    }
}

impl Node {
    pub(crate) open spec fn model(&self) -> NodeView {
        match self {
            Node::Place => NodeView::Place,
            Node::Transition => NodeView::Transition,
            Node::PlaceRef(target, handle) => NodeView::PlaceReference {
                target: target@,
                handle: handle@,
            },
            Node::TransitionRef(target, handle) => NodeView::TransitionReference {
                target: target@,
                handle: handle@,
            },
        }
    }
}

/// The labels of an object as a sequence; an absent list counts as empty.
pub(crate) open spec fn labels_view(labels: Option<Vec<Label>>) -> Seq<Label> {
    match labels {
        Some(list) => list@,
        None => Seq::empty(),
    }
}

/// The models of a list of objects, one for one.
pub(crate) open spec fn objects_view(list: Vec<ObjectBase>) -> Seq<ObjectView>
    decreases list,
{
    Seq::new(
        list.len() as nat,
        |i: int|
            if 0 <= i < list.len() {
                list[i].model()
            } else {
                arbitrary()
            },
    )
}

impl Page {
    pub(crate) open spec fn model(&self) -> PageView
        decreases self,
    {
        PageView { objects: objects_view(self.objects), sub_pages: objects_view(self.sub_pages) }
    }
}

impl ObjectBase {
    pub(crate) open spec fn model(&self) -> ObjectView
        decreases self,
    {
        ObjectView {
            id: self.id@,
            name: self.name@,
            labels: labels_view(self.labels),
            payload: self.object.model(),
        }
    }
}

impl Object {
    pub(crate) open spec fn model(&self) -> Payload
        decreases self,
    {
        match self {
            Object::Page(page) => Payload::Page(page.model()),
            Object::Arc(source, sink) => Payload::Arc { source: source@, sink: sink@ },
            Object::Node(node) => Payload::Node(node.model()),
        }
    }
}

impl View for PetriNet {
    type V = NetView;

    open(crate) spec fn view(&self) -> NetView {
        NetView { id: self.id@, name: self.name@, pages: objects_view(self.pages) }
    }
}

impl View for PNMLDocument {
    type V = Seq<NetView>;

    open(crate) spec fn view(&self) -> Seq<NetView> {
        Seq::new(self.petri_nets.len() as nat, |i: int| self.petri_nets[i]@)
    }
}

impl Clone for PNMLName {
    fn clone(&self) -> (r: Self)
        ensures
            r@ == self@,
    {
        match &self.0 {
            Some(name) => PNMLName(Some(name.clone())),
            None => PNMLName(None),
        }
    }
}

impl Clone for PNMLID {
    fn clone(&self) -> (r: Self)
        ensures
            r@ == self@,
    {
        PNMLID(self.0.clone())
    }
}

impl Clone for PageRef {
    fn clone(&self) -> (r: Self)
        ensures
            r@ == self@,
    {
        PageRef { net: self.net.clone(), page_stack: self.page_stack.clone() }
    }
}

impl Clone for NodeRef {
    fn clone(&self) -> (r: Self)
        ensures
            r@ == self@,
    {
        match self {
            NodeRef::PlaceRef { page, obj_index } => NodeRef::PlaceRef {
                page: page.clone(),
                obj_index: *obj_index,
            },
            NodeRef::TransitionRef { page, obj_index } => NodeRef::TransitionRef {
                page: page.clone(),
                obj_index: *obj_index,
            },
        }
    }
}

impl Clone for ArcRef {
    fn clone(&self) -> (r: Self)
        ensures
            r@ == self@,
    {
        ArcRef {
            page: self.page.clone(),
            obj_index: self.obj_index,
            source: self.source.clone(),
            sink: self.sink.clone(),
        }
    }
}

impl PNMLName {
    /// The name `name`.
    pub fn new(name: &str) -> (r: Self)
        ensures
            r@ == Some(name@),
    {
        PNMLName(Some(String::from_str(name)))
    }
}

impl PNMLID {
    /// The identifier `id`.
    pub fn new(id: &str) -> (r: Self)
        ensures
            r@ == id@,
    {
        PNMLID(String::from_str(id))
    }
}

/// Replacing one entry of a list replaces one entry of its model.
pub(crate) proof fn lemma_objects_view_update(
    before: Vec<ObjectBase>,
    after: Vec<ObjectBase>,
    i: int,
)
    requires
        0 <= i < before.len(),
        after@ == before@.update(i, after@[i]),
    ensures
        objects_view(after) == objects_view(before).update(i, after@[i].model()),
{
}

/// Appending an entry to a list appends its model to the list's model.
pub(crate) proof fn lemma_objects_view_push(
    before: Vec<ObjectBase>,
    after: Vec<ObjectBase>,
    x: ObjectBase,
)
    requires
        after@ == before@.push(x),
    ensures
        objects_view(after) == objects_view(before).push(x.model()),
{
}

/// The error for an object that has to be a page and is none.
pub(crate) fn not_a_page() -> (e: PetriError)
    ensures
        e@ == PetriErrorView::CorruptedData(crate::model::not_a_page_message()),
{
    PetriError::CorruptedData(String::from_str("Object in the sub pages array which is no Page"))
}

/// Get the sub page with index `i` from `page_base`.
fn get_sub_page(page_base: &ObjectBase, i: usize) -> (r: Result<&ObjectBase, PetriError>)
    ensures
        match r {
            Ok(sub) => descend(page_base.model(), seq![i]) == Ok::<ObjectView, PetriErrorView>(
                sub.model(),
            ),
            Err(e) => descend(page_base.model(), seq![i]) == Err::<ObjectView, PetriErrorView>(e@),
        },
{
    proof {
        reveal_with_fuel(descend, 2);
    }
    let page = PetriNet::obj_to_page(page_base)?;
    if i < page.sub_pages.len() {
        Ok(&page.sub_pages[i])
    } else {
        Err(PetriError::PageNotFound)
    }
}

/// Walks down from `obj` along the part of `path` that starts at position `k`.
fn descend_mut<'a>(obj: &'a mut ObjectBase, path: &Vec<usize>, k: usize) -> (r: Result<
    &'a mut ObjectBase,
    PetriError,
>)
    requires
        k <= path.len(),
    ensures
        match r {
            Ok(found) => descend(old(obj).model(), path@.skip(k as int)) == Ok::<
                ObjectView,
                PetriErrorView,
            >(found.model()) && final(obj).model() == descend_replace(
                old(obj).model(),
                path@.skip(k as int),
                final(found).model(),
            ),
            Err(e) => descend(old(obj).model(), path@.skip(k as int)) == Err::<
                ObjectView,
                PetriErrorView,
            >(e@) && final(obj).model() == old(obj).model(),
        },
    decreases path.len() - k,
{
    if k == path.len() {
        Ok(obj)
    } else {
        let i: usize = path[k];
        let ghost rest = path@.skip(k as int);
        assert(rest.drop_first() == path@.skip(k as int + 1));
        let page = PetriNet::obj_to_page_mut(obj)?;
        if i < page.sub_pages.len() {
            let ghost subs = page.sub_pages;
            let r = descend_mut(&mut page.sub_pages[i], path, k + 1);
            proof {
                lemma_objects_view_update(subs, after_borrow(page.sub_pages), i as int);
                if r is Err {
                    assert(objects_view(subs).update(i as int, objects_view(subs)[i as int])
                        =~= objects_view(subs));
                }
            }
            r
        } else {
            Err(PetriError::PageNotFound)
        }
    }
}

impl PetriNet {
    /// The page inside a page object; any other object means that the tree is corrupted.
    pub(crate) fn obj_to_page_mut(o: &mut ObjectBase) -> (r: Result<&mut Page, PetriError>)
        ensures
            match r {
                Ok(page) => old(o).model().payload == Payload::Page(page.model())
                    && final(o).model() == (ObjectView {
                    payload: Payload::Page(final(page).model()),
                    ..old(o).model()
                }),
                Err(e) => !old(o).model().is_page() && e@ == PetriErrorView::CorruptedData(
                    crate::model::not_a_page_message(),
                ) && *final(o) == *old(o),
            },
    {
        match &mut o.object {
            Object::Page(page) => Ok(page),
            _ => Err(not_a_page()),
        }
    }

    /// The page inside a page object; any other object means that the tree is corrupted.
    pub(crate) fn obj_to_page(o: &ObjectBase) -> (r: Result<&Page, PetriError>)
        ensures
            match r {
                Ok(page) => o.model().payload == Payload::Page(page.model()),
                Err(e) => !o.model().is_page() && e@ == PetriErrorView::CorruptedData(
                    crate::model::not_a_page_message(),
                ),
            },
    {
        match &o.object {
            Object::Page(page) => Ok(page),
            _ => Err(not_a_page()),
        }
    }

    /// Searches the referenced page in the net.
    /// Returns the whole object because there is additional information
    /// stored in it (like the id).
    pub(crate) fn get_page_mut(&mut self, page: &PageRef) -> (r: Result<
        &mut ObjectBase,
        PetriError,
    >)
        ensures
            match r {
                Ok(found) => resolve(old(self)@.pages, page@.path) == Ok::<
                    ObjectView,
                    PetriErrorView,
                >(found.model()) && final(self)@ == old(self)@.with_page(
                    page@.path,
                    final(found).model(),
                ),
                Err(e) => resolve(old(self)@.pages, page@.path) == Err::<
                    ObjectView,
                    PetriErrorView,
                >(e@) && final(self)@ == old(self)@,
            },
    {
        if page.page_stack.len() == 0 {
            return Err(
                PetriError::CorruptedData(String::from_str("Invalid PageRef: Stack was empty")),
            );
        }
        // get the initial page that is no sub page (stored directly in the net)
        let first: usize = page.page_stack[0];
        if first >= self.pages.len() {
            return Err(PetriError::PageNotFound);
        }
        let ghost tops = self.pages;
        // traverse the sub and subsub pages
        let r = descend_mut(&mut self.pages[first], &page.page_stack, 1);
        proof {
            lemma_objects_view_update(tops, after_borrow(self.pages), first as int);
            if r is Err {
                assert(objects_view(tops).update(first as int, objects_view(tops)[first as int])
                    =~= objects_view(tops));
            }
        }
        r
    }

    /// Searches the referenced page in the net.
    pub(crate) fn get_page(&self, page: &PageRef) -> (r: Result<&ObjectBase, PetriError>)
        ensures
            match r {
                Ok(found) => resolve(self@.pages, page@.path) == Ok::<ObjectView, PetriErrorView>(
                    found.model(),
                ),
                Err(e) => resolve(self@.pages, page@.path) == Err::<ObjectView, PetriErrorView>(e@),
            },
    {
        if page.page_stack.len() == 0 {
            return Err(
                PetriError::CorruptedData(String::from_str("Invalid PageRef: Stack was empty")),
            );
        }
        // get the initial page that is no sub page (stored directly in the net)
        let first: usize = page.page_stack[0];
        if first >= self.pages.len() {
            return Err(PetriError::PageNotFound);
        }
        let mut found: &ObjectBase = &self.pages[first];
        let mut k: usize = 1;
        // traverse the sub and subsub pages
        while k < page.page_stack.len()
            invariant
                1 <= k <= page.page_stack.len(),
                descend(found.model(), page.page_stack@.skip(k as int)) == resolve(
                    self@.pages,
                    page@.path,
                ),
            decreases page.page_stack.len() - k,
        {
            let index: usize = page.page_stack[k];
            proof {
                let rest = page.page_stack@.skip(k as int);
                reveal_with_fuel(descend, 2);
                assert(rest.drop_first() == page.page_stack@.skip(k as int + 1));
            }
            found = get_sub_page(found, index)?;
            k = k + 1;
        }
        Ok(found)
    }

    /// The object that a node handle addresses: the object at the handle's
    /// position in the handle's page, whatever its kind.
    pub(crate) fn get_node_obj_mut(&mut self, node: &NodeRef) -> (r: Result<
        &mut ObjectBase,
        PetriError,
    >)
        ensures
            match r {
                Ok(found) => old(self)@.node(node@) == Ok::<ObjectView, PetriErrorView>(
                    found.model(),
                ) && final(self)@ == old(self)@.with_object(
                    node@.page().path,
                    node@.index(),
                    final(found).model(),
                ),
                Err(e) => old(self)@.node(node@) == Err::<ObjectView, PetriErrorView>(e@)
                    && final(self)@ == old(self)@,
            },
    {
        let (page_ref, obj_index) = match node {
            NodeRef::PlaceRef { page, obj_index } => (page, *obj_index),
            NodeRef::TransitionRef { page, obj_index } => (page, *obj_index),
        };
        self.get_obj_mut(page_ref, obj_index)
    }

    /// The object that a node handle addresses: the object at the handle's
    /// position in the handle's page, whatever its kind.
    pub(crate) fn get_node_obj(&self, node: &NodeRef) -> (r: Result<&ObjectBase, PetriError>)
        ensures
            match r {
                Ok(found) => self@.node(node@) == Ok::<ObjectView, PetriErrorView>(found.model()),
                Err(e) => self@.node(node@) == Err::<ObjectView, PetriErrorView>(e@),
            },
    {
        let (page_ref, obj_index) = match node {
            NodeRef::PlaceRef { page, obj_index } => (page, *obj_index),
            NodeRef::TransitionRef { page, obj_index } => (page, *obj_index),
        };
        self.get_obj(page_ref, obj_index)
    }

    /// The arc that an arc handle addresses. An object of another kind at
    /// the handle's position is no arc, and the handle does not apply to it.
    pub(crate) fn get_arc_obj_mut(&mut self, arc: &ArcRef) -> (r: Result<
        &mut ObjectBase,
        PetriError,
    >)
        ensures
            match r {
                Ok(found) => old(self)@.arc(arc@) == Ok::<ObjectView, PetriErrorView>(
                    found.model(),
                ) && final(self)@ == old(self)@.with_object(
                    arc@.page.path,
                    arc@.index,
                    final(found).model(),
                ),
                Err(e) => old(self)@.arc(arc@) == Err::<ObjectView, PetriErrorView>(e@)
                    && final(self)@ == old(self)@,
            },
    {
        let ghost before = self@;
        let found = self.get_obj_mut(&arc.page, arc.obj_index)?;
        match found.object {
            Object::Arc(_, _) => Ok(found),
            _ => {
                proof {
                    before.lemma_with_object_same(arc@.page.path, arc@.index);
                }
                Err(PetriError::InvalidData(String::from_str("the referenced object is no arc")))
            },
        }
    }

    /// The arc that an arc handle addresses. An object of another kind at
    /// the handle's position is no arc, and the handle does not apply to it.
    pub(crate) fn get_arc_obj(&self, arc: &ArcRef) -> (r: Result<&ObjectBase, PetriError>)
        ensures
            match r {
                Ok(found) => self@.arc(arc@) == Ok::<ObjectView, PetriErrorView>(found.model()),
                Err(e) => self@.arc(arc@) == Err::<ObjectView, PetriErrorView>(e@),
            },
    {
        let found = self.get_obj(&arc.page, arc.obj_index)?;
        match found.object {
            Object::Arc(_, _) => Ok(found),
            _ => Err(PetriError::InvalidData(String::from_str("the referenced object is no arc"))),
        }
    }

    /// The object at position `obj_index` of the page at `page_ref`.
    fn get_obj_mut(&mut self, page_ref: &PageRef, obj_index: usize) -> (r: Result<
        &mut ObjectBase,
        PetriError,
    >)
        ensures
            match r {
                Ok(found) => old(self)@.object(page_ref@.path, obj_index) == Ok::<
                    ObjectView,
                    PetriErrorView,
                >(found.model()) && final(self)@ == old(self)@.with_object(
                    page_ref@.path,
                    obj_index,
                    final(found).model(),
                ),
                Err(e) => old(self)@.object(page_ref@.path, obj_index) == Err::<
                    ObjectView,
                    PetriErrorView,
                >(e@) && final(self)@ == old(self)@,
            },
    {
        let ghost before = self@;
        let page_obj = self.get_page_mut(page_ref)?;
        proof {
            before.lemma_with_page_same(page_ref@.path);
        }
        let page = PetriNet::obj_to_page_mut(page_obj)?;
        if obj_index < page.objects.len() {
            let ghost objects = page.objects;
            let found = &mut page.objects[obj_index];
            proof {
                lemma_objects_view_update(objects, after_borrow(page.objects), obj_index as int);
            }
            Ok(found)
        } else {
            Err(PetriError::ObjectNotFound)
        }
    }

    /// The object at position `obj_index` of the page at `page_ref`.
    fn get_obj(&self, page_ref: &PageRef, obj_index: usize) -> (r: Result<&ObjectBase, PetriError>)
        ensures
            match r {
                Ok(found) => self@.object(page_ref@.path, obj_index) == Ok::<
                    ObjectView,
                    PetriErrorView,
                >(found.model()),
                Err(e) => self@.object(page_ref@.path, obj_index) == Err::<
                    ObjectView,
                    PetriErrorView,
                >(e@),
            },
    {
        let page = PetriNet::obj_to_page(self.get_page(page_ref)?)?;
        if obj_index < page.objects.len() {
            Ok(&page.objects[obj_index])
        } else {
            Err(PetriError::ObjectNotFound)
        }
    }
}

/// The name that an optional string stands for.
pub open spec fn name_view(name: Option<&str>) -> Option<Seq<char>> {
    match name {
        Some(text) => Some(text@),
        None => None,
    }
}

impl From<Option<&str>> for PNMLName {
    /// The name that an optional string stands for.
    fn from(name: Option<&str>) -> (r: PNMLName)
        ensures
            r@ == name_view(name),
    {
        match name {
            Some(n) => PNMLName(Some(String::from_str(n))),
            None => PNMLName(None),
        }
    }
}

/// A name holds a `String`, which no specification can write down: what
/// `from` returns is said by its own `ensures`, over the view.
impl vstd::std_specs::convert::FromSpecImpl<Option<&str>> for PNMLName {
    open spec fn obeys_from_spec() -> bool {
        false
    }

    open spec fn from_spec(name: Option<&str>) -> PNMLName {
        arbitrary()
    }
}

impl PetriNet {
    /// The invariant of a net, which every operation of this library keeps.
    pub open spec fn wf(&self) -> bool {
        self@.well_formed()
    }

    /// Handles of the top-level pages, in creation order.
    pub fn pages(&self) -> (r: Vec<PageRef>)
        ensures
            r@.len() == self@.pages.len(),
            forall|i: int|
                0 <= i < r@.len() ==> (#[trigger] r@[i])@ == (PageRefView {
                    net: self@.id,
                    path: seq![i as usize],
                }),
    {
        let mut r: Vec<PageRef> = Vec::new();
        let mut i: usize = 0;
        while i < self.pages.len()
            invariant
                i <= self.pages.len(),
                r@.len() == i,
                forall|j: int|
                    0 <= j < i ==> (#[trigger] r@[j])@ == (PageRefView {
                        net: self@.id,
                        path: seq![j as usize],
                    }),
            decreases self.pages.len() - i,
        {
            // though we iterate over objects the indices are consistent
            let mut page_stack: Vec<usize> = Vec::new();
            page_stack.push(i);
            r.push(PageRef { net: self.id.clone(), page_stack });
            i = i + 1;
        }
        r
    }

    /// Appends an empty top-level page and returns its handle.
    pub fn add_page(&mut self, name: Option<&str>) -> (r: PageRef)
        ensures
            final(self)@ == old(self)@.with_new_page(
                fresh_page(page_id(old(self)@.id, old(self)@.pages.len()), name_view(name)),
            ),
            r@ == (PageRefView {
                net: old(self)@.id,
                path: seq![old(self)@.pages.len() as usize],
            }),
            old(self).wf() ==> final(self).wf(),
            grown_net(old(self)@, final(self)@),
    {
        let n: usize = self.pages.len();
        let ghost tops = self.pages;
        let fresh = ObjectBase {
            id: PNMLID(numbered_string(self.id.0.as_str(), "_p", n)),
            name: PNMLName::from(name),
            labels: None,
            object: Object::Page(Page { objects: Vec::new(), sub_pages: Vec::new() }),
        };
        let ghost pushed = fresh;
        self.pages.push(fresh);
        proof {
            lemma_objects_view_push(tops, self.pages, pushed);
            assert(objects_view(pushed.object->Page_0.sub_pages) =~= Seq::<ObjectView>::empty());
            old(self)@.lemma_with_new_page_grown(pushed.model());
            if old(self).wf() {
                lemma_with_new_page_well_formed(old(self)@, name_view(name));
            }
        }
        let mut page_stack: Vec<usize> = Vec::new();
        page_stack.push(n);
        PageRef { net: self.id.clone(), page_stack }
    }

    /// Appends an empty page to the nested pages of `parent` and returns its
    /// handle: the parent's path with the new page's position appended.
    pub fn add_sub_page(&mut self, name: Option<&str>, parent: &PageRef) -> (r: Result<
        PageRef,
        PetriError,
    >)
        ensures
            match r {
                Ok(sub) => {
                    &&& old(self)@.page(parent@.path) matches Ok(page)
                    &&& sub@ == (PageRefView {
                        net: old(self)@.id,
                        path: parent@.path.push(page.page().sub_pages.len() as usize),
                    })
                    &&& final(self)@ == old(self)@.with_new_sub_page(
                        parent@.path,
                        fresh_page(
                            sub_page_id(page.id, page.page().sub_pages.len()),
                            name_view(name),
                        ),
                    )
                },
                Err(e) => old(self)@.page(parent@.path) == Err::<ObjectView, PetriErrorView>(e@)
                    && final(self)@ == old(self)@,
            },
            old(self).wf() ==> final(self).wf(),
            grown_net(old(self)@, final(self)@),
    {
        proof {
            self@.lemma_grown_net_same();
        }
        let ghost before = self@;
        let page = self.get_page_mut(parent)?;
        proof {
            before.lemma_with_page_same(parent@.path);
        }
        // remember the parent id to build a new one from it
        let parent_id = page.id.clone();
        // make the actual page out of the object
        let page = PetriNet::obj_to_page_mut(page)?;
        // finally add the page and return the reference
        let n: usize = page.sub_pages.len();
        let ghost subs = page.sub_pages;
        let fresh = ObjectBase {
            id: PNMLID(numbered_string(parent_id.0.as_str(), "-", n)),
            name: PNMLName::from(name),
            labels: None,
            object: Object::Page(Page { objects: Vec::new(), sub_pages: Vec::new() }),
        };
        let ghost pushed = fresh;
        page.sub_pages.push(fresh);
        proof {
            lemma_objects_view_push(subs, page.sub_pages, pushed);
            assert(objects_view(pushed.object->Page_0.sub_pages) =~= Seq::<ObjectView>::empty());
            before.lemma_with_new_sub_page_grown(parent@.path, pushed.model());
            if before.well_formed() {
                lemma_with_new_sub_page_well_formed(before, parent@.path, pushed.model());
            }
        }
        let mut page_stack = parent.page_stack.clone();
        page_stack.push(n);
        Ok(PageRef { net: self.id.clone(), page_stack })
    }

    /// Appends a fresh object to the page at `page_ref` and returns its
    /// position. Its id is made of the page's id and that position.
    fn push_object(&mut self, page_ref: &PageRef, object: Object) -> (r: Result<usize, PetriError>)
        ensures
            match r {
                Ok(n) => {
                    &&& old(self)@.page(page_ref@.path) matches Ok(page)
                    &&& n == page.page().objects.len()
                    &&& final(self)@ == old(self)@.with_new_object(
                        page_ref@.path,
                        fresh_object(object_id(page.id, n as nat), object.model()),
                    )
                },
                Err(e) => old(self)@.page(page_ref@.path) == Err::<ObjectView, PetriErrorView>(e@)
                    && final(self)@ == old(self)@,
            },
            grown_net(old(self)@, final(self)@),
    {
        proof {
            self@.lemma_grown_net_same();
        }
        let ghost before = self@;
        let page = self.get_page_mut(page_ref)?;
        proof {
            before.lemma_with_page_same(page_ref@.path);
        }
        let parent_id = page.id.clone();
        let page = PetriNet::obj_to_page_mut(page)?;
        let n: usize = page.objects.len();
        let id = numbered_string(parent_id.0.as_str(), "_o", n);
        let ghost objects = page.objects;
        let fresh = ObjectBase { id: PNMLID(id), name: PNMLName(None), labels: None, object };
        let ghost pushed = fresh;
        page.objects.push(fresh);
        proof {
            lemma_objects_view_push(objects, page.objects, pushed);
            before.lemma_with_new_object_grown(page_ref@.path, pushed.model());
        }
        Ok(n)
    }

    /// Appends a place to the page at `page_ref` and returns its handle.
    pub fn add_place(&mut self, page_ref: &PageRef) -> (r: Result<NodeRef, PetriError>)
        ensures
            match r {
                Ok(node) => {
                    &&& old(self)@.page(page_ref@.path) matches Ok(page)
                    &&& node@ == (NodeRefView::Place {
                        page: page_ref@,
                        index: page.page().objects.len() as usize,
                    })
                    &&& final(self)@ == old(self)@.with_new_object(
                        page_ref@.path,
                        fresh_object(
                            object_id(page.id, page.page().objects.len()),
                            Payload::Node(NodeView::Place),
                        ),
                    )
                },
                Err(e) => old(self)@.page(page_ref@.path) == Err::<ObjectView, PetriErrorView>(e@)
                    && final(self)@ == old(self)@,
            },
            old(self).wf() ==> final(self).wf(),
            grown_net(old(self)@, final(self)@),
    {
        let obj_index = self.push_object(page_ref, Object::Node(Node::Place))?;
        proof {
            if old(self).wf() {
                let page = old(self)@.page(page_ref@.path)->Ok_0;
                lemma_with_new_object_well_formed(
                    old(self)@,
                    page_ref@.path,
                    fresh_object(
                        object_id(page.id, obj_index as nat),
                        Payload::Node(NodeView::Place),
                    ),
                );
            }
        }
        Ok(NodeRef::PlaceRef { page: page_ref.clone(), obj_index })
    }

    /// Appends a transition to the page at `page_ref` and returns its handle.
    pub fn add_transition(&mut self, page_ref: &PageRef) -> (r: Result<NodeRef, PetriError>)
        ensures
            match r {
                Ok(node) => {
                    &&& old(self)@.page(page_ref@.path) matches Ok(page)
                    &&& node@ == (NodeRefView::Transition {
                        page: page_ref@,
                        index: page.page().objects.len() as usize,
                    })
                    &&& final(self)@ == old(self)@.with_new_object(
                        page_ref@.path,
                        fresh_object(
                            object_id(page.id, page.page().objects.len()),
                            Payload::Node(NodeView::Transition),
                        ),
                    )
                },
                Err(e) => old(self)@.page(page_ref@.path) == Err::<ObjectView, PetriErrorView>(e@)
                    && final(self)@ == old(self)@,
            },
            old(self).wf() ==> final(self).wf(),
            grown_net(old(self)@, final(self)@),
    {
        let obj_index = self.push_object(page_ref, Object::Node(Node::Transition))?;
        proof {
            if old(self).wf() {
                let page = old(self)@.page(page_ref@.path)->Ok_0;
                lemma_with_new_object_well_formed(
                    old(self)@,
                    page_ref@.path,
                    fresh_object(
                        object_id(page.id, obj_index as nat),
                        Payload::Node(NodeView::Transition),
                    ),
                );
            }
        }
        Ok(NodeRef::TransitionRef { page: page_ref.clone(), obj_index })
    }

    /// Appends an arc from `source_ref` to `sink_ref` to the page at
    /// `page_ref`. An arc joins a place and a transition, in either
    /// direction; it stores the ids of its endpoints.
    pub fn add_arc(&mut self, page_ref: &PageRef, source_ref: &NodeRef, sink_ref: &NodeRef) -> (r:
        Result<ArcRef, PetriError>)
        ensures
            match r {
                Ok(arc) => {
                    &&& old(self)@.new_arc(page_ref@, source_ref@, sink_ref@) matches Ok(x)
                    &&& arc@ == (ArcRefView {
                        page: page_ref@,
                        index: old(self)@.page(page_ref@.path)->Ok_0.page().objects.len() as usize,
                        source: source_ref@,
                        sink: sink_ref@,
                    })
                    &&& final(self)@ == old(self)@.with_new_object(page_ref@.path, x)
                },
                Err(e) => old(self)@.new_arc(page_ref@, source_ref@, sink_ref@) == Err::<
                    ObjectView,
                    PetriErrorView,
                >(e@) && final(self)@ == old(self)@,
            },
            source_ref@.same_kind(sink_ref@) <==> (r matches Err(e) && e@
                == PetriErrorView::BipartitionViolation),
            !source_ref@.same_kind(sink_ref@) && old(self)@.node(source_ref@) is Ok && old(
                self,
            )@.node(sink_ref@) is Ok && old(self)@.page(page_ref@.path) is Ok ==> r is Ok,
            old(self).wf() ==> final(self).wf(),
            grown_net(old(self)@, final(self)@),
    {
        proof {
            self@.lemma_grown_net_same();
        }
        // make sure places and transitions are connected correctly
        match (source_ref, sink_ref) {
            (NodeRef::PlaceRef { .. }, NodeRef::PlaceRef { .. }) => {
                return Err(PetriError::BipartitionViolation);
            },
            (NodeRef::TransitionRef { .. }, NodeRef::TransitionRef { .. }) => {
                return Err(PetriError::BipartitionViolation);
            },
            _ => {},
        }
        let source_id = match self.get_node_obj(source_ref) {
            Ok(source) => source.id.clone(),
            Err(_) => {
                return Err(PetriError::ObjectNotFound);
            },
        };
        let sink_id = match self.get_node_obj(sink_ref) {
            Ok(sink) => sink.id.clone(),
            Err(_) => {
                return Err(PetriError::ObjectNotFound);
            },
        };
        proof {
            lemma_page_errors(self@, page_ref@.path);
        }
        let obj_index = self.push_object(page_ref, Object::Arc(source_id, sink_id))?;
        proof {
            if old(self).wf() {
                lemma_with_new_object_well_formed(
                    old(self)@,
                    page_ref@.path,
                    old(self)@.new_arc(page_ref@, source_ref@, sink_ref@)->Ok_0,
                );
            }
        }
        Ok(
            ArcRef {
                page: page_ref.clone(),
                obj_index,
                source: source_ref.clone(),
                sink: sink_ref.clone(),
            },
        )
    }

    /// Creates a reference place or reference transition.
    ///
    /// Unlike the handles, which are used to look up a position in the
    /// net, a reference node is an object of the net: a link to a place or
    /// transition in another location (e.g. another page). It represents the
    /// node that it links to, and is helpful to mention the same node on
    /// different pages of the graphical representation.
    ///
    /// Returns the handle of the reference node, tagged like `reference`.
    pub fn add_reference_node(&mut self, reference: &NodeRef, page: &PageRef) -> (r: Result<
        NodeRef,
        PetriError,
    >)
        ensures
            match r {
                Ok(node) => {
                    &&& old(self)@.new_reference(reference@, page@) matches Ok(x)
                    &&& node@.same_kind(reference@)
                    &&& node@.page() == page@
                    &&& node@.index() == old(self)@.page(page@.path)->Ok_0.page().objects.len()
                    &&& final(self)@ == old(self)@.with_new_object(page@.path, x)
                },
                Err(e) => old(self)@.new_reference(reference@, page@) == Err::<
                    ObjectView,
                    PetriErrorView,
                >(e@) && final(self)@ == old(self)@,
            },
            old(self).wf() ==> final(self).wf(),
            grown_net(old(self)@, final(self)@),
    {
        proof {
            self@.lemma_grown_net_same();
        }
        let ref_obj = self.get_node_obj(reference)?;
        let ref_id = ref_obj.id.clone();
        let reference_node = match reference {
            NodeRef::PlaceRef { .. } => Node::PlaceRef(ref_id, reference.clone()),
            NodeRef::TransitionRef { .. } => Node::TransitionRef(ref_id, reference.clone()),
        };
        let obj_index = self.push_object(page, Object::Node(reference_node))?;
        proof {
            if old(self).wf() {
                lemma_with_new_object_well_formed(
                    old(self)@,
                    page@.path,
                    old(self)@.new_reference(reference@, page@)->Ok_0,
                );
            }
        }
        Ok(
            match reference {
                NodeRef::PlaceRef { .. } => NodeRef::PlaceRef { page: page.clone(), obj_index },
                NodeRef::TransitionRef { .. } => NodeRef::TransitionRef {
                    page: page.clone(),
                    obj_index,
                },
            },
        )
    }
}

impl NodeRef {
    /// Sets the display name of the node.
    pub fn name(&mut self, net: &mut PetriNet, name: &str) -> (r: Result<&mut Self, PetriError>)
        ensures
            match r {
                Ok(handle) => {
                    &&& old(net)@.node(old(self)@) matches Ok(obj)
                    &&& final(net)@ == old(net)@.with_object(
                        old(self)@.page().path,
                        old(self)@.index(),
                        obj.with_name(Some(name@)),
                    )
                    &&& *handle == *old(self)
                    &&& *final(self) == *final(handle)
                },
                Err(e) => old(net)@.node(old(self)@) == Err::<ObjectView, PetriErrorView>(e@)
                    && final(net)@ == old(net)@ && *final(self) == *old(self),
            },
            old(net).wf() ==> final(net).wf(),
            grown_net(old(net)@, final(net)@),
    {
        proof {
            net@.lemma_grown_net_same();
        }
        let obj = net.get_node_obj_mut(self)?;
        let ghost found = obj.model();
        obj.name = PNMLName::new(name);
        proof {
            lemma_grown_same(found);
            old(net)@.lemma_with_object_grown(self@.page().path, self@.index(), obj.model());
            if old(net).wf() {
                lemma_with_object_well_formed(
                    old(net)@,
                    self@.page().path,
                    self@.index(),
                    obj.model(),
                );
            }
        }
        Ok(self)
    }

    /// The display name of the node, if it has one.
    pub fn get_name<'a>(&'a self, net: &'a PetriNet) -> (r: Result<Option<&'a str>, PetriError>)
        ensures
            match r {
                Ok(name) => net@.node(self@) matches Ok(obj) && name_view(name) == obj.name,
                Err(e) => net@.node(self@) == Err::<ObjectView, PetriErrorView>(e@),
            },
    {
        let obj = net.get_node_obj(self)?;
        match &obj.name {
            PNMLName(Some(name)) => Ok(Some(name.as_str())),
            PNMLName(None) => Ok(None),
        }
    }
}

impl ArcRef {
    /// Sets the display name of the arc.
    pub fn name(&mut self, net: &mut PetriNet, name: &str) -> (r: Result<&mut Self, PetriError>)
        ensures
            match r {
                Ok(handle) => {
                    &&& old(net)@.arc(old(self)@) matches Ok(obj)
                    &&& final(net)@ == old(net)@.with_object(
                        old(self)@.page.path,
                        old(self)@.index,
                        obj.with_name(Some(name@)),
                    )
                    &&& *handle == *old(self)
                    &&& *final(self) == *final(handle)
                },
                Err(e) => old(net)@.arc(old(self)@) == Err::<ObjectView, PetriErrorView>(e@)
                    && final(net)@ == old(net)@ && *final(self) == *old(self),
            },
            old(net).wf() ==> final(net).wf(),
            grown_net(old(net)@, final(net)@),
    {
        proof {
            net@.lemma_grown_net_same();
        }
        let obj = net.get_arc_obj_mut(self)?;
        obj.name = PNMLName::new(name);
        proof {
            old(net)@.lemma_with_object_grown(self@.page.path, self@.index, obj.model());
            if old(net).wf() {
                lemma_with_object_well_formed(old(net)@, self@.page.path, self@.index, obj.model());
            }
        }
        Ok(self)
    }

    /// The display name of the arc, if it has one.
    pub fn get_name<'a>(&'a self, net: &'a PetriNet) -> (r: Result<Option<&'a str>, PetriError>)
        ensures
            match r {
                Ok(name) => net@.arc(self@) matches Ok(obj) && name_view(name) == obj.name,
                Err(e) => net@.arc(self@) == Err::<ObjectView, PetriErrorView>(e@),
            },
    {
        let obj = net.get_arc_obj(self)?;
        match &obj.name {
            PNMLName(Some(name)) => Ok(Some(name.as_str())),
            PNMLName(None) => Ok(None),
        }
    }
}

impl PNMLDocument {
    /// The invariant of a document, which every operation of this library
    /// keeps: its nets are well formed and numbered in creation order.
    pub open spec fn wf(&self) -> bool {
        well_formed_document(self@)
    }

    /// An empty document.
    pub fn new() -> (r: Self)
        ensures
            r@ == Seq::<NetView>::empty(),
            r.wf(),
    {
        let r = PNMLDocument { petri_nets: Vec::new() };
        r
    }

    /// Appends an empty net and returns its handle.
    pub fn add_petri_net(&mut self, name: Option<&str>) -> (r: PetriNetRef)
        ensures
            r@ == old(self)@.len(),
            final(self)@ == old(self)@.push(
                NetView {
                    id: net_id(old(self)@.len()),
                    name: name_view(name),
                    pages: Seq::empty(),
                },
            ),
            old(self).wf() ==> final(self).wf(),
    {
        let n: usize = self.petri_nets.len();
        proof {
            reveal_strlit("");
        }
        let net = PetriNet {
            id: PNMLID(numbered_string("", "n", n)),
            typ: PNMLVersion::V2009,
            name: PNMLName::from(name),
            pages: Vec::new(),
        };
        assert(net@.pages =~= Seq::<ObjectView>::empty());
        let ghost fresh = net@;
        self.petri_nets.push(net);
        assert(self@ =~= old(self)@.push(fresh));
        PetriNetRef(n)
    }

    /// The net that a handle addresses.
    pub fn petri_net_data(&mut self, net: PetriNetRef) -> (r: Result<&mut PetriNet, PetriError>)
        ensures
            match r {
                Ok(found) => net@ < old(self)@.len() && found@ == old(self)@[net@ as int]
                    && final(self)@ == old(self)@.update(net@ as int, final(found)@),
                Err(e) => net@ >= old(self)@.len() && e@ == PetriErrorView::NetNotFound
                    && final(self)@ == old(self)@,
            },
            old(self).wf() ==> (r matches Ok(found) ==> found.wf()),
    {
        if net.0 < self.petri_nets.len() {
            Ok(&mut self.petri_nets[net.0])
        } else {
            Err(PetriError::NetNotFound)
        }
    }

    /// Handles of the nets of the document as it is now, in creation order.
    pub fn petri_nets(&self) -> (r: Vec<PetriNetRef>)
        ensures
            r@.len() == self@.len(),
            forall|i: int| 0 <= i < r@.len() ==> (#[trigger] r@[i])@ == i,
    {
        let mut r: Vec<PetriNetRef> = Vec::new();
        let mut i: usize = 0;
        while i < self.petri_nets.len()
            invariant
                i <= self.petri_nets.len(),
                r@.len() == i,
                forall|j: int| 0 <= j < i ==> (#[trigger] r@[j])@ == j,
            decreases self.petri_nets.len() - i,
        {
            r.push(PetriNetRef(i));
            i = i + 1;
        }
        r
    }
}

} // verus!
