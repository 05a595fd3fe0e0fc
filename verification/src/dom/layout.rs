//! How an arena lays out a tree, and what follows from it.
//!
//! An arena holds every subtree in one run of slots, the root first and the
//! subtrees of its children behind it in their order. So the children of a
//! node have higher ids than the node, subtrees do not overlap, and walking
//! the slots of a subtree in ascending order visits its nodes parent first.

use vstd::prelude::*;

use crate::dom::Children;
use crate::dom::ChildrenView;
use crate::dom::ElementView;
use crate::dom::Props;
use crate::dom::arena::ArenaElement;
use crate::dom::arena::ArenaId;

verus! {

/// The children of a node.
pub open spec fn children_of(e: ArenaElement) -> Option<Children<ArenaId>> {
    match e {
        ArenaElement::Intrinsic { children, .. } => children,
        ArenaElement::Virtual { children, .. } => children,
    }
}

/// The props of a node.
pub open spec fn props_of(e: ArenaElement) -> Props {
    match e {
        ArenaElement::Intrinsic { props, .. } => props,
        ArenaElement::Virtual { props, .. } => props,
    }
}

/// The scope of the component that declared a node.
pub open spec fn scope_of(e: ArenaElement) -> Seq<char> {
    match e {
        ArenaElement::Intrinsic { scope, .. } => scope@,
        ArenaElement::Virtual { scope, .. } => scope@,
    }
}

/// The ids among the children, in the order in which they are rendered.
pub open spec fn child_ids(c: Children<ArenaId>) -> Seq<int>
    decreases c, 0int,
{
    match c {
        Children::Elements(list) => list_ids(list@, list@.len() as int),
        Children::Element(id) => seq![id@],
        Children::Text(_) => Seq::empty(),
    }
}

/// The ids among the first `n` members of a list of children.
pub open spec fn list_ids(list: Seq<Children<ArenaId>>, n: int) -> Seq<int>
    decreases list, n,
{
    if 0 < n <= list.len() {
        list_ids(list, n - 1) + child_ids(list[n - 1])
    } else {
        Seq::empty()
    }
}

/// The ids of the children of the node in slot `id`.
pub open spec fn node_child_ids(nodes: Seq<ArenaElement>, id: int) -> Seq<int> {
    match children_of(nodes[id]) {
        Some(c) => child_ids(c),
        None => Seq::empty(),
    }
}

/// The slot after the last slot of the subtree of the node in slot `id`.
pub open spec fn node_end(nodes: Seq<ArenaElement>, id: int) -> int
    decreases nodes.len() - id,
{
    if 0 <= id < nodes.len() {
        let ids = node_child_ids(nodes, id);
        if ids.len() > 0 && id < ids.last() < nodes.len() {
            node_end(nodes, ids.last())
        } else {
            id + 1
        }
    } else {
        id + 1
    }
}

/// The slot after the subtrees of `ids`, which begin at `start`.
pub open spec fn ids_end(nodes: Seq<ArenaElement>, ids: Seq<int>, start: int) -> int {
    if ids.len() > 0 {
        node_end(nodes, ids.last())
    } else {
        start
    }
}

/// The subtrees of `ids` stand one after the other from slot `start` on.
pub open spec fn chained(nodes: Seq<ArenaElement>, ids: Seq<int>, start: int) -> bool {
    &&& ids.len() > 0 ==> ids[0] == start
    &&& forall|k: int| 0 <= k < ids.len() ==> start <= #[trigger] ids[k] < nodes.len()
    &&& forall|k: int| 0 < k < ids.len() ==> #[trigger] ids[k] == node_end(nodes, ids[k - 1])
}

/// Every id among the children lies in `lo..hi`.
pub open spec fn ids_within(c: Children<ArenaId>, lo: int, hi: int) -> bool
    decreases c,
{
    match c {
        Children::Elements(list) => forall|i: int|
            0 <= i < list@.len() ==> ids_within(#[trigger] list@[i], lo, hi),
        Children::Element(id) => lo <= id@ < hi,
        Children::Text(_) => true,
    }
}

/// The subtrees of the children of the node in slot `id` stand one after the
/// other right behind it, and its props have distinct keys.
pub open spec fn node_wf(nodes: Seq<ArenaElement>, id: int) -> bool {
    &&& props_of(nodes[id]).wf()
    &&& match children_of(nodes[id]) {
        Some(c) => ids_within(c, id + 1, nodes.len() as int),
        None => true,
    }
    &&& chained(nodes, node_child_ids(nodes, id), id + 1)
}

/// `a` is the beginning of `b`.
pub open spec fn is_prefix(a: Seq<ArenaElement>, b: Seq<ArenaElement>) -> bool {
    &&& a.len() <= b.len()
    &&& forall|i: int| 0 <= i < a.len() ==> a[i] == b[i]
}

/// `a` and `b` hold the same nodes from slot `from` on.
pub open spec fn same_from(a: Seq<ArenaElement>, b: Seq<ArenaElement>, from: int) -> bool {
    &&& a.len() == b.len()
    &&& forall|i: int| from <= i < a.len() ==> a[i] == b[i]
}

/// The node `e` with the children `c`.
pub open spec fn with_children(e: ArenaElement, c: Option<Children<ArenaId>>) -> ArenaElement {
    match e {
        ArenaElement::Intrinsic { props, scope, tag, .. } => ArenaElement::Intrinsic {
            props,
            children: c,
            scope,
            tag,
        },
        ArenaElement::Virtual { props, scope, style, .. } => ArenaElement::Virtual {
            props,
            children: c,
            scope,
            style,
        },
    }
}

/// The node `e` with the props `p`.
pub open spec fn with_props(e: ArenaElement, p: Props) -> ArenaElement {
    match e {
        ArenaElement::Intrinsic { children, scope, tag, .. } => ArenaElement::Intrinsic {
            props: p,
            children,
            scope,
            tag,
        },
        ArenaElement::Virtual { children, scope, style, .. } => ArenaElement::Virtual {
            props: p,
            children,
            scope,
            style,
        },
    }
}

/// Every node is laid out as `node_wf` says.
pub open spec fn nodes_wf(nodes: Seq<ArenaElement>) -> bool {
    forall|i: int| 0 <= i < nodes.len() ==> #[trigger] node_wf(nodes, i)
}

/// The tree below the node in slot `id`.
pub open spec fn node_view(nodes: Seq<ArenaElement>, id: int) -> ElementView
    decreases 2 * (nodes.len() - id) + 1,
{
    if 0 <= id < nodes.len() {
        match nodes[id] {
            ArenaElement::Intrinsic { props, children, scope, tag } => ElementView::Intrinsic {
                props: props@,
                children: match children {
                    Some(c) => Some(children_view(nodes, c, id)),
                    None => None,
                },
                scope: scope@,
                tag: tag@,
            },
            ArenaElement::Virtual { props, children, scope, style } => ElementView::Virtual {
                props: props@,
                children: match children {
                    Some(c) => Some(children_view(nodes, c, id)),
                    None => None,
                },
                scope: scope@,
                style: match style {
                    Some(s) => Some(s@),
                    None => None,
                },
            },
        }
    } else {
        ElementView::Virtual {
            props: Seq::empty(),
            children: None,
            scope: Seq::empty(),
            style: None,
        }
    }
}

/// The trees that the children `c` of the node in slot `parent` stand for.
/// An id that does not lie behind `parent` stands for an empty text.
pub open spec fn children_view(
    nodes: Seq<ArenaElement>,
    c: Children<ArenaId>,
    parent: int,
) -> ChildrenView
    decreases 2 * (nodes.len() - parent), c,
{
    match c {
        Children::Elements(list) => ChildrenView::Elements(
            Seq::new(
                list@.len(),
                |i: int|
                    if 0 <= i < list@.len() {
                        children_view(nodes, list@[i], parent)
                    } else {
                        ChildrenView::Text(Seq::empty())
                    },
            ),
        ),
        Children::Element(id) => if parent < id@ < nodes.len() {
            ChildrenView::Element(Box::new(node_view(nodes, id@)))
        } else {
            ChildrenView::Text(Seq::empty())
        },
        Children::Text(t) => ChildrenView::Text(t@),
    }
}

/// A subtree ends behind its root and inside the arena.
pub proof fn lemma_end_bounds(nodes: Seq<ArenaElement>, id: int)
    requires
        nodes_wf(nodes),
        0 <= id < nodes.len(),
    ensures
        id < node_end(nodes, id) <= nodes.len(),
    decreases nodes.len() - id,
{
    let ids = node_child_ids(nodes, id);
    assert(node_wf(nodes, id));
    if ids.len() > 0 {
        assert(id + 1 <= ids[ids.len() - 1] < nodes.len());
        lemma_end_bounds(nodes, ids.last());
    }
}

/// Where a subtree ends depends on the nodes from its root on only.
pub proof fn lemma_end_same_from(a: Seq<ArenaElement>, b: Seq<ArenaElement>, id: int)
    requires
        same_from(a, b, id),
    ensures
        node_end(a, id) == node_end(b, id),
    decreases a.len() - id,
{
    if 0 <= id < a.len() {
        let ids = node_child_ids(a, id);
        assert(a[id] == b[id]);
        if ids.len() > 0 && id < ids.last() < a.len() {
            lemma_end_same_from(a, b, ids.last());
        }
    }
}

/// Nodes pushed behind a well-formed arena leave the ends of its subtrees
/// where they were.
pub proof fn lemma_end_prefix(a: Seq<ArenaElement>, b: Seq<ArenaElement>, id: int)
    requires
        nodes_wf(a),
        is_prefix(a, b),
        0 <= id < a.len(),
    ensures
        node_end(b, id) == node_end(a, id),
    decreases a.len() - id,
{
    let ids = node_child_ids(a, id);
    assert(node_wf(a, id));
    assert(a[id] == b[id]);
    if ids.len() > 0 {
        assert(id + 1 <= ids[ids.len() - 1] < a.len());
        lemma_end_prefix(a, b, ids.last());
    }
}

/// A wider range holds what a narrower one holds.
pub proof fn lemma_ids_within_widen(c: Children<ArenaId>, lo: int, hi: int, lo2: int, hi2: int)
    requires
        ids_within(c, lo, hi),
        lo2 <= lo,
        hi <= hi2,
    ensures
        ids_within(c, lo2, hi2),
    decreases c,
{
    match c {
        Children::Elements(list) => {
            assert forall|i: int| 0 <= i < list@.len() implies ids_within(
                #[trigger] list@[i],
                lo2,
                hi2,
            ) by {
                lemma_ids_within_widen(list@[i], lo, hi, lo2, hi2);
            }
        },
        _ => {},
    }
}

/// Nodes pushed behind a well-formed arena leave a chain of its subtrees as
/// it was.
pub proof fn lemma_chain_prefix(
    a: Seq<ArenaElement>,
    b: Seq<ArenaElement>,
    ids: Seq<int>,
    start: int,
)
    requires
        nodes_wf(a),
        is_prefix(a, b),
        chained(a, ids, start),
        0 <= start,
    ensures
        chained(b, ids, start),
        ids_end(b, ids, start) == ids_end(a, ids, start),
{
    assert forall|k: int| 0 < k < ids.len() implies #[trigger] ids[k] == node_end(
        b,
        ids[k - 1],
    ) by {
        assert(start <= ids[k - 1] < a.len());
        lemma_end_prefix(a, b, ids[k - 1]);
    }
    if ids.len() > 0 {
        assert(start <= ids[ids.len() - 1] < a.len());
        lemma_end_prefix(a, b, ids.last());
    }
}

/// A chain followed by a chain that begins where the first one ends is a
/// chain.
pub proof fn lemma_chain_concat(nodes: Seq<ArenaElement>, xs: Seq<int>, ys: Seq<int>, start: int)
    requires
        nodes_wf(nodes),
        0 <= start,
        chained(nodes, xs, start),
        chained(nodes, ys, ids_end(nodes, xs, start)),
    ensures
        chained(nodes, xs + ys, start),
        ids_end(nodes, xs + ys, start) == ids_end(nodes, ys, ids_end(nodes, xs, start)),
        start <= ids_end(nodes, xs, start),
{
    let zs = xs + ys;
    let mid = ids_end(nodes, xs, start);
    if xs.len() > 0 {
        assert(start <= xs[xs.len() - 1] < nodes.len());
        lemma_end_bounds(nodes, xs.last());
    }
    assert forall|k: int| 0 <= k < zs.len() implies start <= #[trigger] zs[k] < nodes.len() by {
        if k < xs.len() {
            assert(zs[k] == xs[k]);
        } else {
            assert(zs[k] == ys[k - xs.len()]);
        }
    }
    assert forall|k: int| 0 < k < zs.len() implies #[trigger] zs[k] == node_end(
        nodes,
        zs[k - 1],
    ) by {
        if k < xs.len() {
            assert(zs[k] == xs[k]);
            assert(zs[k - 1] == xs[k - 1]);
        } else if k == xs.len() {
            assert(zs[k] == ys[0]);
            assert(zs[k - 1] == xs[xs.len() - 1]);
        } else {
            assert(zs[k] == ys[k - xs.len()]);
            assert(zs[k - 1] == ys[k - xs.len() - 1]);
        }
    }
    if zs.len() > 0 {
        if xs.len() > 0 {
            assert(zs[0] == xs[0]);
        } else {
            assert(zs[0] == ys[0]);
        }
    }
    if ys.len() > 0 {
        assert(zs.last() == ys.last());
    } else {
        assert(zs =~= xs);
    }
}

/// The tree below a node depends on the nodes from its slot on only.
pub proof fn lemma_view_same_from(a: Seq<ArenaElement>, b: Seq<ArenaElement>, id: int)
    requires
        same_from(a, b, id),
    ensures
        node_view(a, id) == node_view(b, id),
    decreases 2 * (a.len() - id) + 1,
{
    if 0 <= id < a.len() {
        assert(a[id] == b[id]);
        match children_of(a[id]) {
            Some(c) => {
                lemma_children_view_same_from(a, b, c, id);
            },
            None => {},
        }
    }
}

/// The trees that children stand for depend on the nodes behind their parent
/// only.
pub proof fn lemma_children_view_same_from(
    a: Seq<ArenaElement>,
    b: Seq<ArenaElement>,
    c: Children<ArenaId>,
    parent: int,
)
    requires
        same_from(a, b, parent + 1),
    ensures
        children_view(a, c, parent) == children_view(b, c, parent),
    decreases 2 * (a.len() - parent), c,
{
    match c {
        Children::Elements(list) => {
            assert forall|i: int| 0 <= i < list@.len() implies children_view(a, list@[i], parent)
                == children_view(b, list@[i], parent) by {
                lemma_children_view_same_from(a, b, list@[i], parent);
            }
            assert(children_view(a, c, parent)->Elements_0 =~= children_view(
                b,
                c,
                parent,
            )->Elements_0);
        },
        Children::Element(id) => {
            if parent < id@ < a.len() {
                lemma_view_same_from(a, b, id@);
            }
        },
        Children::Text(_) => {},
    }
}

/// Nodes pushed behind a well-formed arena leave its trees as they were.
pub proof fn lemma_view_prefix(a: Seq<ArenaElement>, b: Seq<ArenaElement>, id: int)
    requires
        nodes_wf(a),
        is_prefix(a, b),
        0 <= id < a.len(),
    ensures
        node_view(b, id) == node_view(a, id),
    decreases 2 * (a.len() - id) + 1,
{
    assert(a[id] == b[id]);
    assert(node_wf(a, id));
    match children_of(a[id]) {
        Some(c) => {
            lemma_children_view_prefix(a, b, c, id);
        },
        None => {},
    }
}

/// Nodes pushed behind a well-formed arena leave the trees of children as
/// they were.
pub proof fn lemma_children_view_prefix(
    a: Seq<ArenaElement>,
    b: Seq<ArenaElement>,
    c: Children<ArenaId>,
    parent: int,
)
    requires
        nodes_wf(a),
        is_prefix(a, b),
        0 <= parent < a.len(),
        ids_within(c, parent + 1, a.len() as int),
    ensures
        children_view(b, c, parent) == children_view(a, c, parent),
    decreases 2 * (a.len() - parent), c,
{
    match c {
        Children::Elements(list) => {
            assert forall|i: int| 0 <= i < list@.len() implies children_view(b, list@[i], parent)
                == children_view(a, list@[i], parent) by {
                lemma_children_view_prefix(a, b, list@[i], parent);
            }
            assert(children_view(a, c, parent)->Elements_0 =~= children_view(
                b,
                c,
                parent,
            )->Elements_0);
        },
        Children::Element(id) => {
            lemma_view_prefix(a, b, id@);
        },
        Children::Text(_) => {},
    }
}

/// Children whose ids lie behind two slots stand for the same trees as the
/// children of either.
pub proof fn lemma_children_view_same_parent(
    nodes: Seq<ArenaElement>,
    c: Children<ArenaId>,
    p: int,
    q: int,
)
    requires
        ids_within(c, p + 1, nodes.len() as int),
        ids_within(c, q + 1, nodes.len() as int),
    ensures
        children_view(nodes, c, p) == children_view(nodes, c, q),
    decreases c,
{
    match c {
        Children::Elements(list) => {
            assert forall|i: int| 0 <= i < list@.len() implies children_view(nodes, list@[i], p)
                == children_view(nodes, list@[i], q) by {
                lemma_children_view_same_parent(nodes, list@[i], p, q);
            }
            assert(children_view(nodes, c, p)->Elements_0 =~= children_view(
                nodes,
                c,
                q,
            )->Elements_0);
        },
        _ => {},
    }
}

/// Two slots that hold the same node hold the same tree.
pub proof fn lemma_view_same_node(nodes: Seq<ArenaElement>, i: int, j: int)
    requires
        nodes_wf(nodes),
        0 <= i < nodes.len(),
        0 <= j < nodes.len(),
        nodes[i] == nodes[j],
    ensures
        node_view(nodes, i) == node_view(nodes, j),
{
    assert(node_wf(nodes, i));
    assert(node_wf(nodes, j));
    match children_of(nodes[i]) {
        Some(c) => {
            lemma_children_view_same_parent(nodes, c, i, j);
        },
        None => {},
    }
}

/// A childless node pushed behind a well-formed arena leaves it well-formed.
pub proof fn lemma_wf_push(a: Seq<ArenaElement>, e: ArenaElement)
    requires
        nodes_wf(a),
        children_of(e) is None,
        props_of(e).wf(),
    ensures
        nodes_wf(a.push(e)),
        is_prefix(a, a.push(e)),
        node_end(a.push(e), a.len() as int) == a.len() + 1,
{
    let b = a.push(e);
    assert(is_prefix(a, b));
    assert forall|i: int| 0 <= i < b.len() implies #[trigger] node_wf(b, i) by {
        if i < a.len() {
            assert(node_wf(a, i));
            assert(b[i] == a[i]);
            match children_of(a[i]) {
                Some(c) => {
                    lemma_ids_within_widen(c, i + 1, a.len() as int, i + 1, b.len() as int);
                },
                None => {},
            }
            lemma_chain_prefix(a, b, node_child_ids(a, i), i + 1);
        }
    }
}

/// Giving the childless node in slot `p` the children `c`, whose subtrees fill
/// the arena from slot `p + 1` on, leaves the arena well-formed.
pub proof fn lemma_wf_set_children(
    o: Seq<ArenaElement>,
    a: Seq<ArenaElement>,
    p: int,
    c: Children<ArenaId>,
)
    requires
        nodes_wf(o),
        nodes_wf(a),
        is_prefix(o, a),
        o.len() == p,
        p < a.len(),
        children_of(a[p]) is None,
        ids_within(c, p + 1, a.len() as int),
        chained(a, child_ids(c), p + 1),
        ids_end(a, child_ids(c), p + 1) == a.len(),
    ensures
        nodes_wf(a.update(p, with_children(a[p], Some(c)))),
        is_prefix(o, a.update(p, with_children(a[p], Some(c)))),
        node_end(a.update(p, with_children(a[p], Some(c))), p) == a.len(),
{
    let b = a.update(p, with_children(a[p], Some(c)));
    assert(is_prefix(o, b));
    assert(same_from(a, b, p + 1));
    assert forall|j: int| p < j < a.len() implies node_end(a, j) == node_end(b, j) by {
        assert(same_from(a, b, j));
        lemma_end_same_from(a, b, j);
    }
    assert forall|i: int| 0 <= i < b.len() implies #[trigger] node_wf(b, i) by {
        if i < p {
            assert(node_wf(o, i));
            assert(b[i] == o[i]);
            match children_of(o[i]) {
                Some(ci) => {
                    lemma_ids_within_widen(ci, i + 1, o.len() as int, i + 1, b.len() as int);
                },
                None => {},
            }
            lemma_chain_prefix(o, b, node_child_ids(o, i), i + 1);
        } else if i == p {
            let ids = child_ids(c);
            assert(node_child_ids(b, p) == ids);
            assert(node_wf(a, p));
            assert forall|k: int| 0 < k < ids.len() implies #[trigger] ids[k] == node_end(
                b,
                ids[k - 1],
            ) by {
                assert(p + 1 <= ids[k - 1] < a.len());
            }
        } else {
            assert(node_wf(a, i));
            assert(b[i] == a[i]);
            let ids = node_child_ids(a, i);
            assert forall|k: int| 0 < k < ids.len() implies #[trigger] ids[k] == node_end(
                b,
                ids[k - 1],
            ) by {
                assert(i + 1 <= ids[k - 1] < a.len());
            }
        }
    }
    let ids = child_ids(c);
    assert(node_child_ids(b, p) == ids);
    if ids.len() > 0 {
        assert(p + 1 <= ids[ids.len() - 1] < a.len());
    }
}

/// The ids of a list with one more member are the ids of the list followed
/// by the ids of that member.
pub proof fn lemma_list_ids_push(list: Seq<Children<ArenaId>>, item: Children<ArenaId>)
    ensures
        list_ids(list.push(item), list.len() as int + 1) == list_ids(list, list.len() as int) + child_ids(
            item,
        ),
{
    lemma_list_ids_same(list, list.push(item), list.len() as int);
}

/// The ids of the first `n` members depend on those members only.
pub proof fn lemma_list_ids_same(a: Seq<Children<ArenaId>>, b: Seq<Children<ArenaId>>, n: int)
    requires
        0 <= n <= a.len(),
        n <= b.len(),
        forall|i: int| 0 <= i < n ==> a[i] == b[i],
    ensures
        list_ids(a, n) == list_ids(b, n),
    decreases n,
{
    if n > 0 {
        lemma_list_ids_same(a, b, n - 1);
    }
}

/// `a` and `b` hold nodes with the same children, slot by slot.
pub open spec fn same_shape(a: Seq<ArenaElement>, b: Seq<ArenaElement>) -> bool {
    &&& a.len() == b.len()
    &&& forall|i: int| 0 <= i < a.len() ==> children_of(#[trigger] a[i]) == children_of(b[i])
}

/// Where a subtree ends depends on the children of the nodes only.
pub proof fn lemma_end_same_shape(a: Seq<ArenaElement>, b: Seq<ArenaElement>, id: int)
    requires
        same_shape(a, b),
    ensures
        node_end(a, id) == node_end(b, id),
    decreases a.len() - id,
{
    if 0 <= id < a.len() {
        let ids = node_child_ids(a, id);
        assert(children_of(a[id]) == children_of(b[id]));
        if ids.len() > 0 && id < ids.last() < a.len() {
            lemma_end_same_shape(a, b, ids.last());
        }
    }
}

/// Changing props, and keeping their keys distinct, leaves an arena
/// well-formed.
pub proof fn lemma_wf_same_shape(a: Seq<ArenaElement>, b: Seq<ArenaElement>)
    requires
        nodes_wf(a),
        same_shape(a, b),
        forall|i: int| 0 <= i < b.len() ==> props_of(#[trigger] b[i]).wf(),
    ensures
        nodes_wf(b),
{
    assert forall|i: int| 0 <= i < b.len() implies #[trigger] node_wf(b, i) by {
        assert(node_wf(a, i));
        assert(children_of(a[i]) == children_of(b[i]));
        let ids = node_child_ids(a, i);
        assert forall|k: int| 0 < k < ids.len() implies #[trigger] ids[k] == node_end(
            b,
            ids[k - 1],
        ) by {
            lemma_end_same_shape(a, b, ids[k - 1]);
        }
    }
}

/// The ids of a list whose members from `n` on hold no id are the ids of its
/// first `n` members.
pub proof fn lemma_list_ids_tail_empty(list: Seq<Children<ArenaId>>, n: int, m: int)
    requires
        0 <= n <= m <= list.len(),
        forall|k: int| n <= k < m ==> child_ids(#[trigger] list[k]).len() == 0,
    ensures
        list_ids(list, m) == list_ids(list, n),
    decreases m - n,
{
    if n < m {
        lemma_list_ids_tail_empty(list, n, m - 1);
        assert(child_ids(list[m - 1]) =~= Seq::<int>::empty());
        assert(list_ids(list, m) =~= list_ids(list, m - 1));
    }
}

/// The subtree of every node among the children ends at `hi` or before.
pub open spec fn ends_within(nodes: Seq<ArenaElement>, c: Children<ArenaId>, hi: int) -> bool
    decreases c,
{
    match c {
        Children::Elements(list) => forall|i: int|
            0 <= i < list@.len() ==> ends_within(nodes, #[trigger] list@[i], hi),
        Children::Element(id) => node_end(nodes, id@) <= hi,
        Children::Text(_) => true,
    }
}

/// The ids of the first `m` members of a list are the beginning of the ids of
/// its first `n` members.
pub proof fn lemma_list_ids_prefix(list: Seq<Children<ArenaId>>, m: int, n: int)
    requires
        0 <= m <= n <= list.len(),
    ensures
        list_ids(list, m).len() <= list_ids(list, n).len(),
        forall|j: int| 0 <= j < list_ids(list, m).len() ==> list_ids(list, n)[j] == list_ids(list, m)[j],
    decreases n - m,
{
    if m < n {
        lemma_list_ids_prefix(list, m, n - 1);
    }
}

/// In a chain a later subtree begins where an earlier one ends, or behind.
pub proof fn lemma_chain_increasing(
    nodes: Seq<ArenaElement>,
    ids: Seq<int>,
    start: int,
    k: int,
    m: int,
)
    requires
        nodes_wf(nodes),
        chained(nodes, ids, start),
        0 <= start,
        0 <= k < m < ids.len(),
    ensures
        node_end(nodes, ids[k]) <= ids[m],
    decreases m - k,
{
    if k + 1 < m {
        lemma_chain_increasing(nodes, ids, start, k, m - 1);
        assert(start <= ids[m - 1] < nodes.len());
        lemma_end_bounds(nodes, ids[m - 1]);
    }
}

/// Every subtree of a chain ends where the chain ends, or before.
pub proof fn lemma_chain_member_end(nodes: Seq<ArenaElement>, ids: Seq<int>, start: int, k: int)
    requires
        nodes_wf(nodes),
        chained(nodes, ids, start),
        0 <= start,
        0 <= k < ids.len(),
    ensures
        node_end(nodes, ids[k]) <= ids_end(nodes, ids, start),
{
    let last = ids.len() - 1;
    if k < last {
        lemma_chain_increasing(nodes, ids, start, k, last);
        assert(start <= ids[last] < nodes.len());
        lemma_end_bounds(nodes, ids[last]);
    }
}

/// Children whose ids all name subtrees that end at `hi` or before hold no
/// other node.
pub proof fn lemma_ends_within(nodes: Seq<ArenaElement>, c: Children<ArenaId>, hi: int)
    requires
        forall|j: int| 0 <= j < child_ids(c).len() ==> node_end(nodes, #[trigger] child_ids(c)[j]) <= hi,
    ensures
        ends_within(nodes, c, hi),
    decreases c,
{
    match c {
        Children::Elements(list) => {
            let all = list_ids(list@, list@.len() as int);
            assert forall|i: int| 0 <= i < list@.len() implies ends_within(
                nodes,
                #[trigger] list@[i],
                hi,
            ) by {
                let own = child_ids(list@[i]);
                let before = list_ids(list@, i);
                lemma_list_ids_prefix(list@, i + 1, list@.len() as int);
                assert forall|j: int| 0 <= j < own.len() implies node_end(
                    nodes,
                    #[trigger] own[j],
                ) <= hi by {
                    assert(list_ids(list@, i + 1) == before + own);
                    assert(list_ids(list@, i + 1)[before.len() + j] == own[j]);
                    assert(before.len() + j < child_ids(c).len());
                    assert(child_ids(c)[before.len() + j] == own[j]);
                }
                lemma_ends_within(nodes, list@[i], hi);
            }
        },
        Children::Element(id) => {
            assert(child_ids(c)[0] == id@);
        },
        Children::Text(_) => {},
    }
}

/// The subtrees of the children of a node end where the subtree of the node
/// ends, or before.
pub proof fn lemma_children_end(nodes: Seq<ArenaElement>, id: int)
    requires
        nodes_wf(nodes),
        0 <= id < nodes.len(),
    ensures
        match children_of(nodes[id]) {
            Some(c) => ends_within(nodes, c, node_end(nodes, id)),
            None => true,
        },
{
    match children_of(nodes[id]) {
        Some(c) => {
            let ids = child_ids(c);
            assert(node_wf(nodes, id));
            assert forall|j: int| 0 <= j < ids.len() implies node_end(nodes, #[trigger] ids[j])
                <= node_end(nodes, id) by {
                lemma_chain_member_end(nodes, ids, id + 1, j);
                assert(id + 1 <= ids[ids.len() - 1] < nodes.len());
            }
            lemma_ends_within(nodes, c, node_end(nodes, id));
        },
        None => {},
    }
}

/// A later end holds what an earlier one holds.
pub proof fn lemma_ends_within_widen(
    nodes: Seq<ArenaElement>,
    c: Children<ArenaId>,
    hi: int,
    hi2: int,
)
    requires
        ends_within(nodes, c, hi),
        hi <= hi2,
    ensures
        ends_within(nodes, c, hi2),
    decreases c,
{
    match c {
        Children::Elements(list) => {
            assert forall|i: int| 0 <= i < list@.len() implies ends_within(
                nodes,
                #[trigger] list@[i],
                hi2,
            ) by {
                lemma_ends_within_widen(nodes, list@[i], hi, hi2);
            }
        },
        _ => {},
    }
}

/// The slots `lo..hi` in ascending order.
pub open spec fn slots(lo: int, hi: int) -> Seq<int> {
    if lo < hi {
        Seq::new((hi - lo) as nat, |k: int| lo + k)
    } else {
        Seq::empty()
    }
}

/// The slots of the subtree of `id` in the order of a walk that visits a
/// node before its children and the children in their order.
pub open spec fn preorder(nodes: Seq<ArenaElement>, id: int) -> Seq<int>
    decreases 2 * (nodes.len() - id) + 1,
{
    if 0 <= id < nodes.len() {
        seq![id] + match children_of(nodes[id]) {
            Some(c) => children_preorder(nodes, c, id),
            None => Seq::empty(),
        }
    } else {
        Seq::empty()
    }
}

/// The slots of the subtrees of the children `c` of the node in slot
/// `parent`, in the order of the walk.
pub open spec fn children_preorder(
    nodes: Seq<ArenaElement>,
    c: Children<ArenaId>,
    parent: int,
) -> Seq<int>
    decreases 2 * (nodes.len() - parent), c, 0int,
{
    match c {
        Children::Elements(list) => list_preorder(nodes, list@, list@.len() as int, parent),
        Children::Element(id) => if parent < id@ < nodes.len() {
            preorder(nodes, id@)
        } else {
            Seq::empty()
        },
        Children::Text(_) => Seq::empty(),
    }
}

/// The slots of the subtrees of the first `n` members of a list of children
/// of the node in slot `parent`, in the order of the walk.
pub open spec fn list_preorder(
    nodes: Seq<ArenaElement>,
    list: Seq<Children<ArenaId>>,
    n: int,
    parent: int,
) -> Seq<int>
    decreases 2 * (nodes.len() - parent), list, n,
{
    if 0 < n <= list.len() {
        list_preorder(nodes, list, n - 1, parent) + children_preorder(nodes, list[n - 1], parent)
    } else {
        Seq::empty()
    }
}

/// A chain taken apart is two chains, the second beginning where the first
/// ends.
pub proof fn lemma_chain_split(nodes: Seq<ArenaElement>, xs: Seq<int>, ys: Seq<int>, start: int)
    requires
        nodes_wf(nodes),
        0 <= start,
        chained(nodes, xs + ys, start),
    ensures
        chained(nodes, xs, start),
        chained(nodes, ys, ids_end(nodes, xs, start)),
        start <= ids_end(nodes, xs, start),
{
    let zs = xs + ys;
    let mid = ids_end(nodes, xs, start);
    assert forall|k: int| 0 <= k < xs.len() implies start <= #[trigger] xs[k] < nodes.len() by {
        assert(zs[k] == xs[k]);
    }
    assert forall|k: int| 0 < k < xs.len() implies #[trigger] xs[k] == node_end(
        nodes,
        xs[k - 1],
    ) by {
        assert(zs[k] == xs[k]);
        assert(zs[k - 1] == xs[k - 1]);
    }
    if xs.len() > 0 {
        assert(zs[0] == xs[0]);
        assert(start <= xs[xs.len() - 1] < nodes.len());
        lemma_end_bounds(nodes, xs.last());
    }
    if ys.len() > 0 {
        let first = xs.len() as int;
        assert(zs[first] == ys[0]);
        if xs.len() > 0 {
            assert(zs[first - 1] == xs.last());
        }
        assert(ys[0] == mid);
        assert forall|k: int| 0 <= k < ys.len() implies mid <= #[trigger] ys[k] < nodes.len() by {
            assert(zs[first + k] == ys[k]);
            if k > 0 {
                lemma_chain_increasing(nodes, zs, start, first, first + k);
                assert(start <= zs[first] < nodes.len());
                lemma_end_bounds(nodes, zs[first]);
            }
        }
        assert forall|k: int| 0 < k < ys.len() implies #[trigger] ys[k] == node_end(
            nodes,
            ys[k - 1],
        ) by {
            assert(zs[first + k] == ys[k]);
            assert(zs[first + k - 1] == ys[k - 1]);
        }
    }
}

/// An arena holds every subtree in the order of the walk: the walk through
/// the subtree of `id` visits the slots from `id` to the end of the subtree
/// in ascending order.
pub proof fn lemma_preorder(nodes: Seq<ArenaElement>, id: int)
    requires
        nodes_wf(nodes),
        0 <= id < nodes.len(),
    ensures
        preorder(nodes, id) == slots(id, node_end(nodes, id)),
    decreases 2 * (nodes.len() - id) + 1,
{
    assert(node_wf(nodes, id));
    lemma_end_bounds(nodes, id);
    match children_of(nodes[id]) {
        Some(c) => {
            let ids = child_ids(c);
            lemma_children_preorder(nodes, c, id, id + 1);
            if ids.len() > 0 {
                assert(id + 1 <= ids[ids.len() - 1] < nodes.len());
            }
            assert(node_end(nodes, id) == ids_end(nodes, ids, id + 1));
            assert(seq![id] + slots(id + 1, node_end(nodes, id)) =~= slots(
                id,
                node_end(nodes, id),
            ));
        },
        None => {
            assert(seq![id] + Seq::<int>::empty() =~= slots(id, id + 1));
        },
    }
}

/// `lemma_preorder` for the children of the node in slot `parent`, whose
/// subtrees begin at `start`.
pub proof fn lemma_children_preorder(
    nodes: Seq<ArenaElement>,
    c: Children<ArenaId>,
    parent: int,
    start: int,
)
    requires
        nodes_wf(nodes),
        0 <= parent < start,
        parent < nodes.len(),
        ids_within(c, parent + 1, nodes.len() as int),
        chained(nodes, child_ids(c), start),
    ensures
        children_preorder(nodes, c, parent) == slots(
            start,
            ids_end(nodes, child_ids(c), start),
        ),
        start <= ids_end(nodes, child_ids(c), start),
    decreases 2 * (nodes.len() - parent), c, 0int,
{
    match c {
        Children::Elements(list) => {
            lemma_list_preorder(nodes, list@, list@.len() as int, parent, start);
        },
        Children::Element(id) => {
            assert(child_ids(c)[0] == id@);
            lemma_preorder(nodes, id@);
            lemma_end_bounds(nodes, id@);
        },
        Children::Text(_) => {},
    }
}

/// `lemma_preorder` for the first `n` members of a list of children of the
/// node in slot `parent`, whose subtrees begin at `start`.
pub proof fn lemma_list_preorder(
    nodes: Seq<ArenaElement>,
    list: Seq<Children<ArenaId>>,
    n: int,
    parent: int,
    start: int,
)
    requires
        nodes_wf(nodes),
        0 <= parent < start,
        parent < nodes.len(),
        0 <= n <= list.len(),
        forall|i: int| 0 <= i < list.len() ==> ids_within(#[trigger] list[i], parent + 1, nodes.len() as int),
        chained(nodes, list_ids(list, n), start),
    ensures
        list_preorder(nodes, list, n, parent) == slots(
            start,
            ids_end(nodes, list_ids(list, n), start),
        ),
        start <= ids_end(nodes, list_ids(list, n), start),
    decreases 2 * (nodes.len() - parent), list, n,
{
    if n > 0 {
        let xs = list_ids(list, n - 1);
        let ys = child_ids(list[n - 1]);
        let mid = ids_end(nodes, xs, start);
        lemma_chain_split(nodes, xs, ys, start);
        lemma_chain_concat(nodes, xs, ys, start);
        lemma_list_preorder(nodes, list, n - 1, parent, start);
        lemma_children_preorder(nodes, list[n - 1], parent, mid);
        let end = ids_end(nodes, ys, mid);
        assert(slots(start, mid) + slots(mid, end) =~= slots(start, end));
    }
}

} // verus!
