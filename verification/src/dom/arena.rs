//! The tree of one page, stored in an arena.
//!
//! The arena hands out ids in the order in which nodes are pushed and never
//! uses an id again. A tree is pushed root first, so that every subtree fills
//! one run of slots.

use vstd::prelude::*;

use crate::dom::Children;
use crate::dom::Props;
use crate::dom::boxed::BoxedElement;
use crate::dom::boxed::boxed_children_view;
use crate::dom::boxed::boxed_children_wf;
use crate::dom::children_html;
use crate::dom::element_html;
use crate::dom::layout::chained;
use crate::dom::layout::child_ids;
use crate::dom::layout::children_of;
use crate::dom::layout::children_view;
use crate::dom::layout::ids_end;
use crate::dom::layout::ids_within;
use crate::dom::layout::is_prefix;
use crate::dom::layout::lemma_chain_concat;
use crate::dom::layout::lemma_chain_prefix;
use crate::dom::layout::lemma_children_view_prefix;
use crate::dom::layout::lemma_children_view_same_from;
use crate::dom::layout::lemma_end_bounds;
use crate::dom::layout::lemma_ids_within_widen;
use crate::dom::layout::lemma_list_ids_push;
use crate::dom::layout::lemma_list_ids_tail_empty;
use crate::dom::layout::lemma_view_same_node;
use crate::dom::layout::lemma_wf_push;
use crate::dom::layout::lemma_wf_set_children;
use crate::dom::layout::list_ids;
use crate::dom::layout::node_child_ids;
use crate::dom::layout::node_end;
use crate::dom::layout::node_view;
use crate::dom::layout::node_wf;
use crate::dom::layout::nodes_wf;
use crate::dom::layout::props_of;
use crate::dom::layout::scope_of;
use crate::dom::layout::slots;
use crate::dom::layout::with_children;
use crate::dom::layout::with_props;
use crate::dom::list_html;
use crate::dom::props_text;

verus! {

/// The id of a node: the number of its slot in the arena that made it.
#[derive(Clone, Copy, Debug, PartialEq, Eq)]
pub struct ArenaId(usize);

impl View for ArenaId {
    type V = int;

    closed spec fn view(&self) -> int {
        self.0 as int
    }
}

impl ArenaId {
    /// The number of the slot.
    pub fn index(&self) -> (r: usize)
        ensures
            r == self@,
    {
        self.0
    }
}

/// A node in an arena: its children are ids of the same arena.
#[derive(Debug, PartialEq, Eq)]
pub enum ArenaElement {
    Intrinsic { props: Props, children: Option<Children<ArenaId>>, scope: String, tag: String },
    Virtual { props: Props, children: Option<Children<ArenaId>>, scope: String, style: Option<String> },
}

/// The nodes of one page.
#[derive(Debug)]
pub struct Arena {
    arena: Vec<ArenaElement>,
}

impl View for Arena {
    type V = Seq<ArenaElement>;

    closed spec fn view(&self) -> Seq<ArenaElement> {
        self.arena@
    }
}

impl Arena {
    /// Every subtree fills one run of slots, parent first.
    pub open spec fn wf(&self) -> bool {
        nodes_wf(self@)
    }

    /// `e` is a node of this arena.
    pub open spec fn holds(&self, e: ArenaElement) -> bool {
        exists|i: int| 0 <= i < self@.len() && #[trigger] self@[i] == e
    }

    /// A slot that holds `e`.
    pub open spec fn slot_of(&self, e: ArenaElement) -> int {
        choose|i: int| 0 <= i < self@.len() && #[trigger] self@[i] == e
    }

    /// An arena without nodes.
    pub fn new() -> (r: Self)
        ensures
            r@.len() == 0,
            r.wf(),
    {
        Arena { arena: Vec::new() }
    }

    /// The number of nodes.
    pub fn len(&self) -> (r: usize)
        ensures
            r == self@.len(),
    {
        self.arena.len()
    }

    /// Does `id` name a node of this arena?
    pub fn contains(&self, id: ArenaId) -> (r: bool)
        ensures
            r == (id@ < self@.len()),
    {
        id.0 < self.arena.len()
    }

    /// The node that `index` names.
    pub fn index(&self, index: ArenaId) -> (r: &ArenaElement)
        requires
            index@ < self@.len(),
        ensures
            *r == self@[index@],
            self.holds(*r),
    {
        &self.arena[index.0]
    }
}

impl ArenaElement {
    /// A copy of the props of the node.
    pub fn props(&self) -> (r: Props)
        ensures
            r@ == props_of(*self)@,
    {
        match self {
            ArenaElement::Intrinsic { props, .. } => props.clone(),
            ArenaElement::Virtual { props, .. } => props.clone(),
        }
    }

    /// The props of the node, to be changed in place.
    pub fn props_mut(&mut self) -> (r: &mut Props)
        ensures
            *r == props_of(*old(self)),
            *final(self) == with_props(*old(self), *final(r)),
    {
        match self {
            ArenaElement::Intrinsic { props, .. } => props,
            ArenaElement::Virtual { props, .. } => props,
        }
    }

    /// The children of the node.
    pub fn children(&self) -> (r: Option<&Children<ArenaId>>)
        ensures
            match r {
                Some(c) => children_of(*self) == Some(*c),
                None => children_of(*self) is None,
            },
    {
        match self {
            ArenaElement::Intrinsic { children, .. } => children.as_ref(),
            ArenaElement::Virtual { children, .. } => children.as_ref(),
        }
    }

    /// The children of the node, to be changed in place.
    pub fn children_mut(&mut self) -> (r: &mut Option<Children<ArenaId>>)
        ensures
            *r == children_of(*old(self)),
            *final(self) == with_children(*old(self), *final(r)),
    {
        match self {
            ArenaElement::Intrinsic { children, .. } => children,
            ArenaElement::Virtual { children, .. } => children,
        }
    }

    /// A copy of the scope of the component that declared the node.
    pub fn scope(&self) -> (r: String)
        ensures
            r@ == scope_of(*self),
    {
        match self {
            ArenaElement::Intrinsic { scope, .. } => scope.clone(),
            ArenaElement::Virtual { scope, .. } => scope.clone(),
        }
    }

    /// The HTML of the tree below this node of `arena`, whichever slot holds
    /// the node.
    pub fn to_string(&self, arena: &Arena) -> (r: String)
        requires
            arena.wf(),
            arena.holds(*self),
        ensures
            forall|slot: int|
                0 <= slot < arena@.len() && arena@[slot] == *self ==> r@ == element_html(
                    #[trigger] node_view(arena@, slot),
                ),
    {
        let ghost held = arena.slot_of(*self);
        proof {
            assert forall|slot: int| 0 <= slot < arena@.len() && arena@[slot] == *self implies (
            #[trigger] node_view(arena@, slot)) == node_view(arena@, held) by {
                lemma_view_same_node(arena@, slot, held);
            }
        }
        element_to_string(self, arena, Ghost(held))
    }

    /// Pushes the tree `boxed` into `arena`, the root first and then the
    /// subtrees of its children in their order, and hands back the id of the
    /// root.
    pub fn from_boxed(arena: &mut Arena, boxed: &BoxedElement, _parent: Option<ArenaId>) -> (id:
        ArenaId)
        requires
            old(arena).wf(),
            boxed.wf(),
        ensures
            final(arena).wf(),
            is_prefix(old(arena)@, final(arena)@),
            id@ == old(arena)@.len(),
            node_end(final(arena)@, id@) == final(arena)@.len(),
            node_view(final(arena)@, id@) == boxed@,
        decreases boxed,
    {
        let element = match boxed {
            BoxedElement::Intrinsic { props, scope, tag, .. } => ArenaElement::Intrinsic {
                props: props.clone(),
                children: None,
                scope: scope.clone(),
                tag: tag.clone(),
            },
            BoxedElement::Virtual { props, scope, style, .. } => ArenaElement::Virtual {
                props: props.clone(),
                children: None,
                scope: scope.clone(),
                style: match style {
                    Some(s) => Some(s.clone()),
                    None => None,
                },
            },
        };
        proof {
            lemma_wf_push(arena@, element);
        }
        arena.arena.push(element);
        let id = ArenaId(arena.arena.len() - 1);
        match boxed.children() {
            None => id,
            Some(children) => {
                let built = from_boxed_children(arena, children, Some(id), Ghost(id@));
                let ghost a = arena@;
                proof {
                    lemma_wf_set_children(old(arena)@, a, id@, built);
                    lemma_children_view_same_from(
                        a,
                        a.update(id@, with_children(a[id@], Some(built))),
                        built,
                        id@,
                    );
                }
                *arena.arena[id.0].children_mut() = Some(built);
                assert(arena@ == a.update(id@, with_children(a[id@], Some(built))));
                id
            },
        }
    }
}

fn from_boxed_children(
    arena: &mut Arena,
    children: &Children<BoxedElement>,
    parent: Option<ArenaId>,
    Ghost(above): Ghost<int>,
) -> (r: Children<ArenaId>)
    requires
        old(arena).wf(),
        boxed_children_wf(*children),
        0 <= above < old(arena)@.len(),
    ensures
        final(arena).wf(),
        is_prefix(old(arena)@, final(arena)@),
        ids_within(r, old(arena)@.len() as int, final(arena)@.len() as int),
        chained(final(arena)@, child_ids(r), old(arena)@.len() as int),
        ids_end(final(arena)@, child_ids(r), old(arena)@.len() as int) == final(arena)@.len(),
        children_view(final(arena)@, r, above) == boxed_children_view(*children),
    decreases children,
{
    match children {
        Children::Text(text) => Children::Text(text.clone()),
        Children::Element(el) => {
            let id = ArenaElement::from_boxed(arena, el, parent);
            Children::Element(id)
        },
        Children::Elements(els) => {
            let mut out: Vec<Children<ArenaId>> = Vec::new();
            let mut i: usize = 0;
            #[verifier::loop_isolation(false)]
            while i < els.len()
                invariant
                    i <= els.len(),
                    arena.wf(),
                    is_prefix(old(arena)@, arena@),
                    out@.len() == i,
                    forall|k: int|
                        0 <= k < i ==> ids_within(
                            #[trigger] out@[k],
                            old(arena)@.len() as int,
                            arena@.len() as int,
                        ),
                    chained(arena@, list_ids(out@, i as int), old(arena)@.len() as int),
                    ids_end(arena@, list_ids(out@, i as int), old(arena)@.len() as int)
                        == arena@.len(),
                    forall|k: int|
                        0 <= k < i ==> children_view(arena@, #[trigger] out@[k], above)
                            == boxed_children_view(els@[k]),
                decreases els.len() - i,
            {
                let ghost before = arena@;
                let ghost done = out@;
                let item = from_boxed_children(arena, &els[i], parent, Ghost(above));
                out.push(item);
                proof {
                    let start = old(arena)@.len() as int;
                    assert forall|k: int| 0 <= k < i + 1 implies ids_within(
                        #[trigger] out@[k],
                        start,
                        arena@.len() as int,
                    ) by {
                        if k < i {
                            assert(out@[k] == done[k]);
                            lemma_ids_within_widen(
                                done[k],
                                start,
                                before.len() as int,
                                start,
                                arena@.len() as int,
                            );
                        } else {
                            lemma_ids_within_widen(
                                item,
                                before.len() as int,
                                arena@.len() as int,
                                start,
                                arena@.len() as int,
                            );
                        }
                    }
                    assert forall|k: int| 0 <= k < i + 1 implies children_view(
                        arena@,
                        #[trigger] out@[k],
                        above,
                    ) == boxed_children_view(els@[k]) by {
                        if k < i {
                            assert(out@[k] == done[k]);
                            lemma_ids_within_widen(
                                done[k],
                                start,
                                before.len() as int,
                                above + 1,
                                before.len() as int,
                            );
                            lemma_children_view_prefix(before, arena@, done[k], above);
                        }
                    }
                    lemma_list_ids_push(done, item);
                    lemma_chain_prefix(before, arena@, list_ids(done, i as int), start);
                    lemma_chain_concat(arena@, list_ids(done, i as int), child_ids(item), start);
                }
                i += 1;
            }
            let r = Children::Elements(out);
            proof {
                assert(children_view(arena@, r, above)->Elements_0 =~= boxed_children_view(
                    *children,
                )->Elements_0);
            }
            r
        },
    }
}

fn element_to_string(e: &ArenaElement, arena: &Arena, Ghost(slot): Ghost<int>) -> (r: String)
    requires
        arena.wf(),
        0 <= slot < arena@.len(),
        arena@[slot] == *e,
    ensures
        r@ == element_html(node_view(arena@, slot)),
    decreases 2 * (arena@.len() - slot) + 1,
{
    assert(node_wf(arena@, slot));
    match e {
        ArenaElement::Intrinsic { props, children, tag, .. } => {
            let inner = match children {
                Some(c) => children_to_string(c, arena, Ghost(slot)),
                None => String::new(),
            };
            let attrs = props.to_string();
            let mut out = String::new();
            out.append("<");
            out.append(tag.as_str());
            out.append(attrs.as_str());
            out.append(">");
            out.append(inner.as_str());
            out.append("</");
            out.append(tag.as_str());
            out.append(">");
            assert(out@ =~= "<"@ + tag@ + props_text(props@) + ">"@ + inner@ + "</"@ + tag@ + ">"@);
            out
        },
        ArenaElement::Virtual { children, .. } => match children {
            Some(c) => children_to_string(c, arena, Ghost(slot)),
            None => String::new(),
        },
    }
}

fn children_to_string(c: &Children<ArenaId>, arena: &Arena, Ghost(parent): Ghost<int>) -> (r:
    String)
    requires
        arena.wf(),
        0 <= parent < arena@.len(),
        ids_within(*c, parent + 1, arena@.len() as int),
    ensures
        r@ == children_html(children_view(arena@, *c, parent)),
    decreases 2 * (arena@.len() - parent), c,
{
    match c {
        Children::Element(id) => element_to_string(&arena.arena[id.0], arena, Ghost(id@)),
        Children::Text(text) => text.clone(),
        Children::Elements(els) => {
            let mut out = String::new();
            let mut i: usize = 0;
            let ghost views = children_view(arena@, *c, parent)->Elements_0;
            #[verifier::loop_isolation(false)]
            while i < els.len()
                invariant
                    i <= els.len(),
                    out@ == list_html(views, i as int),
                decreases els.len() - i,
            {
                let part = children_to_string(&els[i], arena, Ghost(parent));
                out.append(part.as_str());
                i += 1;
            }
            out
        },
    }
}

/// The last id among the children.
fn last_id(c: &Children<ArenaId>) -> (r: Option<ArenaId>)
    ensures
        match r {
            Some(id) => child_ids(*c).len() > 0 && child_ids(*c).last() == id@,
            None => child_ids(*c).len() == 0,
        },
    decreases c,
{
    match c {
        Children::Text(_) => None,
        Children::Element(id) => Some(*id),
        Children::Elements(list) => {
            let mut i: usize = list.len();
            #[verifier::loop_isolation(false)]
            while i > 0
                invariant
                    i <= list.len(),
                    forall|k: int| i <= k < list@.len() ==> child_ids(#[trigger] list@[k]).len() == 0,
                decreases i,
            {
                i -= 1;
                match last_id(&list[i]) {
                    Some(id) => {
                        proof {
                            lemma_list_ids_tail_empty(list@, i as int + 1, list@.len() as int);
                        }
                        return Some(id);
                    },
                    None => {},
                }
            }
            proof {
                lemma_list_ids_tail_empty(list@, 0, list@.len() as int);
            }
            None
        },
    }
}

impl ArenaId {
    /// The id of the slot with the number `index`.
    pub(crate) fn from_index(index: usize) -> (r: ArenaId)
        ensures
            r@ == index,
    {
        ArenaId(index)
    }
}

impl Arena {
    /// The slot after the last slot of the subtree of `id`.
    pub fn subtree_end(&self, id: ArenaId) -> (r: usize)
        requires
            self.wf(),
            id@ < self@.len(),
        ensures
            r == node_end(self@, id@),
            id@ < r <= self@.len(),
    {
        proof {
            lemma_end_bounds(self@, id@);
        }
        let mut cur: usize = id.0;
        let len = self.arena.len();
        loop
            invariant
                self.wf(),
                len == self@.len(),
                cur < self@.len(),
                node_end(self@, cur as int) == node_end(self@, id@),
                id@ < node_end(self@, id@) <= self@.len(),
            decreases self@.len() - cur,
        {
            assert(node_wf(self@, cur as int));
            let last = match &self.arena[cur] {
                ArenaElement::Intrinsic { children, .. } => match children {
                    Some(c) => last_id(c),
                    None => None,
                },
                ArenaElement::Virtual { children, .. } => match children {
                    Some(c) => last_id(c),
                    None => None,
                },
            };
            match last {
                Some(id) => {
                    let ghost ids = node_child_ids(self@, cur as int);
                    assert(cur + 1 <= ids[ids.len() - 1] < self@.len());
                    cur = id.0;
                },
                None => {
                    return cur + 1;
                },
            }
        }
    }

    /// The HTML of the subtree of `id`.
    pub fn render(&self, id: ArenaId) -> (r: String)
        requires
            self.wf(),
            id@ < self@.len(),
        ensures
            r@ == element_html(node_view(self@, id@)),
    {
        element_to_string(&self.arena[id.0], self, Ghost(id@))
    }

    /// The props of the node that `index` names, to be changed in place.
    pub fn props_mut(&mut self, index: ArenaId) -> (r: &mut Props)
        requires
            index@ < old(self)@.len(),
        ensures
            *r == props_of(old(self)@[index@]),
            final(self)@ == old(self)@.update(
                index@,
                with_props(old(self)@[index@], *final(r)),
            ),
    {
        self.arena[index.0].props_mut()
    }
}

} // verus!
