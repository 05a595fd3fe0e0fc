//! A page: the arena of its tree, the style sheet gathered from its
//! components, and its rendering to HTML.
//!
//! Rendering tags every intrinsic node with the class of its component,
//! gathers the rewritten style sheet of every component once, serialises the
//! tree, and injects the style sheet into the head and the client script into
//! the body of the document.

use vstd::prelude::*;

use std::borrow::Cow;

use lol_html::ElementContentHandlers;
use lol_html::RewriteStrSettings;
use lol_html::html_content::ContentType;
use lol_html::html_content::Element;
use lol_html::rewrite_str;

use crate::dom::Children;
use crate::dom::ChildrenView;
use crate::dom::ElementView;
use crate::dom::PropTypeError;
use crate::dom::PropsView;
use crate::dom::arena::Arena;
use crate::dom::arena::ArenaElement;
use crate::dom::arena::ArenaId;
use crate::dom::layout::children_of;
use crate::dom::layout::children_view;
use crate::dom::layout::ends_within;
use crate::dom::layout::ids_within;
use crate::dom::layout::lemma_children_end;
use crate::dom::layout::lemma_end_bounds;
use crate::dom::layout::lemma_end_same_shape;
use crate::dom::layout::lemma_ends_within_widen;
use crate::dom::layout::lemma_wf_same_shape;
use crate::dom::layout::node_end;
use crate::dom::layout::node_view;
use crate::dom::layout::node_wf;
use crate::dom::layout::nodes_wf;
use crate::dom::layout::props_of;
use crate::dom::layout::same_shape;
use crate::dom::layout::scope_of;
use crate::dom::layout::with_props;
use crate::dom::boxed::BoxedElement;
use crate::dom::element_html;
use crate::dom::lookup;
use crate::dom::position;
use crate::env::hash_string;
use crate::env::hash_text;
use crate::text::str_eq;
use crate::value::ValueView;

verus! {

/// What a page's component is told about the page.
#[derive(Debug, PartialEq, Eq)]
pub struct PageProps {
    /// The path of the page inside the site.
    pub path: String,
    /// The name and the version of the program that builds the site.
    pub generator: String,
}

impl PageProps {
    /// The props of the page at `path`, built by the version `version`.
    pub fn new(path: String, version: &str) -> (r: Self)
        ensures
            r.path == path,
            r.generator@ == "Areum "@ + version@,
    {
        let mut generator = String::new();
        generator.append("Areum ");
        generator.append(version);
        assert(generator@ =~= "Areum "@ + version@);
        PageProps { path, generator }
    }
}

/// The class that marks the nodes and the rules of the component with the
/// scope `scope`.
pub open spec fn scope_class(scope: Seq<char>) -> Seq<char> {
    "s"@ + scope
}

/// A class can be appended to the props: they hold no `class`, or a string.
pub open spec fn scopable(p: PropsView) -> bool {
    match lookup(p, "class"@) {
        None => true,
        Some(ValueView::String(_)) => true,
        Some(_) => false,
    }
}

/// The props `p` with `class` appended to their `class`.
pub open spec fn scoped_props(p: PropsView, class: Seq<char>) -> PropsView {
    match lookup(p, "class"@) {
        None => p.push(("class"@, ValueView::String(class))),
        Some(ValueView::String(s)) => p.update(
            position(p, "class"@),
            ("class"@, ValueView::String(s + " "@ + class)),
        ),
        Some(_) => p,
    }
}

/// The class of its component can be appended to the node: it is virtual, or
/// its props are `scopable`.
pub open spec fn node_scopable(e: ArenaElement) -> bool {
    match e {
        ArenaElement::Intrinsic { props, .. } => scopable(props@),
        ArenaElement::Virtual { .. } => true,
    }
}

/// `b` is `a` after scope assignment: an intrinsic node with the class of its
/// component appended, a virtual node as it was.
pub open spec fn scoped_node(a: ArenaElement, b: ArenaElement) -> bool {
    match a {
        ArenaElement::Intrinsic { props, scope, .. } => {
            &&& b == with_props(a, props_of(b))
            &&& props_of(b).wf()
            &&& props_of(b)@ == scoped_props(props@, scope_class(scope@))
        },
        ArenaElement::Virtual { .. } => b == a,
    }
}

/// `b` is `a` with the nodes in the slots `lo..done` after scope assignment
/// and every other node as it was.
pub open spec fn scoped_upto(a: Seq<ArenaElement>, b: Seq<ArenaElement>, lo: int, done: int) -> bool {
    &&& a.len() == b.len()
    &&& forall|i: int|
        0 <= i < a.len() ==> if lo <= i < done {
            scoped_node(a[i], #[trigger] b[i])
        } else {
            b[i] == a[i]
        }
}

/// The first slot in `lo..hi` whose node is not `node_scopable`; `hi` where
/// there is none.
pub open spec fn first_unscopable(nodes: Seq<ArenaElement>, lo: int, hi: int) -> int
    decreases hi - lo,
{
    if lo >= hi {
        hi
    } else if !node_scopable(nodes[lo]) {
        lo
    } else {
        first_unscopable(nodes, lo + 1, hi)
    }
}

/// The class and the style sheet of a virtual node that declares one.
pub open spec fn styled(e: ArenaElement) -> Option<(Seq<char>, Seq<char>)> {
    match e {
        ArenaElement::Virtual { style: Some(css), scope, .. } => Some((scope_class(scope@), css@)),
        _ => None,
    }
}

/// The style sheets that the nodes in the slots `lo..hi` contribute, in the
/// order of the slots, each with the class of its component: one for every
/// class that is not in `flushed`, taken from the first node that declares it.
pub open spec fn pending(
    nodes: Seq<ArenaElement>,
    lo: int,
    hi: int,
    flushed: Seq<Seq<char>>,
) -> Seq<(Seq<char>, Seq<char>)>
    decreases hi - lo,
{
    if lo >= hi {
        Seq::empty()
    } else {
        match styled(nodes[lo]) {
            Some((class, css)) => if flushed.contains(class) {
                pending(nodes, lo + 1, hi, flushed)
            } else {
                seq![(class, css)] + pending(nodes, lo + 1, hi, flushed.push(class))
            },
            None => pending(nodes, lo + 1, hi, flushed),
        }
    }
}

/// The texts of a list of strings.
pub open spec fn texts(list: Seq<String>) -> Seq<Seq<char>> {
    Seq::new(list.len(), |i: int| list[i]@)
}

/// The classes of a list of style sheets.
pub open spec fn classes(sheets: Seq<(Seq<char>, Seq<char>)>) -> Seq<Seq<char>> {
    Seq::new(sheets.len(), |i: int| sheets[i].0)
}

/// The style sheet that a component declares, with the class of the
/// component.
#[derive(Debug, PartialEq, Eq)]
pub struct StyleSource {
    /// The class of the component.
    pub scope: String,
    /// The style sheet as the component declares it.
    pub css: String,
}

impl View for StyleSource {
    type V = (Seq<char>, Seq<char>);

    open spec fn view(&self) -> (Seq<char>, Seq<char>) {
        (self.scope@, self.css@)
    }
}

/// The classes and texts of a list of style sheets.
pub open spec fn sources(list: Seq<StyleSource>) -> Seq<(Seq<char>, Seq<char>)> {
    Seq::new(list.len(), |i: int| list[i]@)
}

/// The number of rewritten style sheets differs from the number of style
/// sheets that the page contributes.
#[derive(Debug, PartialEq, Eq)]
pub struct StyleCountError {
    /// The number of style sheets that the page contributes.
    pub expected: usize,
    /// The number of rewritten style sheets that were handed in.
    pub found: usize,
}

/// Why a page could not be rendered.
#[derive(Debug, PartialEq, Eq)]
pub enum RenderError {
    /// A node holds a `class` that is no string.
    PropType(PropTypeError),
    /// The rewritten style sheets do not match the page.
    Styles(StyleCountError),
    /// The document could not be rewritten; the text says why.
    Rewrite(String),
}

/// The document with `head_tail` appended to the content of every `head`
/// element and `body_tail` to that of every `body` element, both as markup,
/// as `lol_html` rewrites it in strict mode; `None` where it gives up on the
/// document.
pub uninterp spec fn appended_to_head_and_body(
    html: Seq<char>,
    head_tail: Seq<char>,
    body_tail: Seq<char>,
) -> Option<Seq<char>>;

/// Why `lol_html` gave up on a document. Nothing is read from it but its
/// text.
#[verifier::external_type_specification]
#[verifier::external_body]
pub struct ExRewritingError(lol_html::errors::RewritingError);

/// `lol_html::rewrite_str` with two element handlers, one that appends
/// `body_tail` to `body` and one that appends `head_tail` to `head`, in strict
/// mode and without support for Edge Side Includes tags. The outcome depends
/// on the three texts alone.
#[verifier::external_body]
fn append_to_head_and_body(html: &str, head_tail: &str, body_tail: &str) -> (r: Result<
    String,
    lol_html::errors::RewritingError,
>)
    ensures
        match r {
            Ok(s) => appended_to_head_and_body(html@, head_tail@, body_tail@) == Some(s@),
            Err(_) => appended_to_head_and_body(html@, head_tail@, body_tail@) is None,
        },
{
    let body = ElementContentHandlers::default().element(
        |el: &mut Element| Ok(el.append(body_tail, ContentType::Html)),
    );
    let head = ElementContentHandlers::default().element(
        |el: &mut Element| Ok(el.append(head_tail, ContentType::Html)),
    );
    let handlers = vec![
        (Cow::Owned("body".parse().unwrap()), body),
        (Cow::Owned("head".parse().unwrap()), head),
    ];
    let esi_off = RewriteStrSettings { enable_esi_tags: false, ..Default::default() };
    rewrite_str(html, RewriteStrSettings { element_content_handlers: handlers, ..esi_off })
}

/// The text of a `lol_html::errors::RewritingError`, as its `Display` gives
/// it.
#[verifier::external_body]
fn rewriting_error_text(e: &lol_html::errors::RewritingError) -> (r: String) {
    format!("{}", e)
}

/// The serialised tree below `dom` behind a doctype.
pub open spec fn document_text(nodes: Seq<ArenaElement>, dom: int) -> Seq<char> {
    "<!DOCTYPE html>"@ + element_html(node_view(nodes, dom))
}

/// The `style` element that holds the style sheet `style`.
pub open spec fn style_tag(style: Seq<char>) -> Seq<char> {
    "<style>"@ + style + "</style>"@
}

/// The `script` element that holds the module `script`.
pub open spec fn script_tag(script: Seq<char>) -> Seq<char> {
    "<script type=\"module\">"@ + script + "</script>"@
}

/// One page of a site.
#[derive(Debug)]
pub struct Page {
    /// The path of the page inside the site.
    pub path: String,
    /// The URL of the module that the page was loaded from.
    pub url: String,
    /// The nodes of the page.
    pub arena: Arena,
    /// The root of the tree.
    pub dom: ArenaId,
    /// The style sheet gathered so far.
    pub style: String,
    /// The classes whose style sheets are in `style`.
    pub scopes: Vec<String>,
    /// The module that starts the page in the browser.
    pub script: String,
    /// The short name of the page.
    pub id: String,
}

fn contains_text(list: &Vec<String>, text: &str) -> (r: bool)
    ensures
        r == texts(list@).contains(text@),
{
    let mut i: usize = 0;
    while i < list.len()
        invariant
            i <= list.len(),
            forall|k: int| 0 <= k < i ==> texts(list@)[k] != text@,
        decreases list.len() - i,
    {
        if str_eq(list[i].as_str(), text) {
            assert(texts(list@)[i as int] == text@);
            return true;
        }
        i += 1;
    }
    false
}

fn contains_class(list: &Vec<StyleSource>, text: &str) -> (r: bool)
    ensures
        r == classes(sources(list@)).contains(text@),
{
    let mut i: usize = 0;
    while i < list.len()
        invariant
            i <= list.len(),
            forall|k: int| 0 <= k < i ==> classes(sources(list@))[k] != text@,
        decreases list.len() - i,
    {
        if str_eq(list[i].scope.as_str(), text) {
            assert(classes(sources(list@))[i as int] == text@);
            return true;
        }
        i += 1;
    }
    false
}

/// The index of the first page with the site path `path`.
pub open spec fn page_at(pages: Seq<Page>, path: Seq<char>, n: int) -> Option<int>
    decreases n,
{
    if n <= 0 {
        None
    } else {
        match page_at(pages, path, n - 1) {
            Some(i) => Some(i),
            None => if pages[n - 1].path@ == path {
                Some(n - 1)
            } else {
                None
            },
        }
    }
}

/// The index of the first of `pages` with the site path `path`: the page
/// that answers a request, among the pages that a generator made.
pub fn find_page(pages: &Vec<Page>, path: &str) -> (r: Option<usize>)
    ensures
        match r {
            Some(i) => page_at(pages@, path@, pages@.len() as int) == Some(i as int) && i
                < pages@.len(),
            None => page_at(pages@, path@, pages@.len() as int) is None,
        },
{
    let mut i: usize = 0;
    while i < pages.len()
        invariant
            i <= pages.len(),
            page_at(pages@, path@, i as int) is None,
        decreases pages.len() - i,
    {
        if str_eq(pages[i].path.as_str(), path) {
            proof {
                lemma_page_at_stays(pages@, path@, i as int + 1, pages@.len() as int);
            }
            return Some(i);
        }
        i += 1;
    }
    None
}

/// A page found among the first `n` pages is the page found among the first
/// `m` pages.
pub proof fn lemma_page_at_stays(pages: Seq<Page>, path: Seq<char>, n: int, m: int)
    requires
        0 <= n <= m,
        page_at(pages, path, n) is Some,
    ensures
        page_at(pages, path, m) == page_at(pages, path, n),
    decreases m - n,
{
    if n < m {
        lemma_page_at_stays(pages, path, n, m - 1);
    }
}

/// The class of the component with the scope `scope`.
pub fn scope_class_of(scope: &str) -> (r: String)
    ensures
        r@ == scope_class(scope@),
{
    let mut class = String::new();
    class.append("s");
    class.append(scope);
    assert(class@ =~= scope_class(scope@));
    class
}

/// The style sheets of `pending` keep a list of distinct classes distinct.
pub proof fn lemma_pending_distinct(
    nodes: Seq<ArenaElement>,
    lo: int,
    hi: int,
    flushed: Seq<Seq<char>>,
)
    requires
        flushed.no_duplicates(),
    ensures
        (flushed + classes(pending(nodes, lo, hi, flushed))).no_duplicates(),
    decreases hi - lo,
{
    if lo >= hi {
        assert(flushed + classes(pending(nodes, lo, hi, flushed)) =~= flushed);
    } else {
        match styled(nodes[lo]) {
            Some((class, css)) => {
                if flushed.contains(class) {
                    lemma_pending_distinct(nodes, lo + 1, hi, flushed);
                } else {
                    let next = flushed.push(class);
                    assert(next.no_duplicates());
                    lemma_pending_distinct(nodes, lo + 1, hi, next);
                    assert(flushed + classes(pending(nodes, lo, hi, flushed)) =~= next + classes(
                        pending(nodes, lo + 1, hi, next),
                    ));
                }
            },
            None => {
                lemma_pending_distinct(nodes, lo + 1, hi, flushed);
            },
        }
    }
}

/// The tree after scope assignment: every intrinsic node has the class of its
/// component appended to its `class`.
pub open spec fn scoped_element(e: ElementView) -> ElementView
    decreases e,
{
    match e {
        ElementView::Intrinsic { props, children, scope, tag } => ElementView::Intrinsic {
            props: scoped_props(props, scope_class(scope)),
            children: match children {
                Some(c) => Some(scoped_children(c)),
                None => None,
            },
            scope,
            tag,
        },
        ElementView::Virtual { props, children, scope, style } => ElementView::Virtual {
            props,
            children: match children {
                Some(c) => Some(scoped_children(c)),
                None => None,
            },
            scope,
            style,
        },
    }
}

/// The children after scope assignment.
pub open spec fn scoped_children(c: ChildrenView) -> ChildrenView
    decreases c,
{
    match c {
        ChildrenView::Elements(list) => ChildrenView::Elements(
            Seq::new(
                list.len(),
                |i: int|
                    if 0 <= i < list.len() {
                        scoped_children(list[i])
                    } else {
                        ChildrenView::Text(Seq::empty())
                    },
            ),
        ),
        ChildrenView::Element(e) => ChildrenView::Element(Box::new(scoped_element(*e))),
        ChildrenView::Text(t) => ChildrenView::Text(t),
    }
}

/// Scope assignment on the slots of a subtree is scope assignment on the
/// tree: where the nodes in the slots `id..hi` of `b` are those of `a` after
/// scope assignment, and the subtree of `id` ends at `hi` or before, the tree
/// below `id` in `b` is the tree below `id` in `a` with every intrinsic node
/// scoped.
pub proof fn lemma_scoped_view(a: Seq<ArenaElement>, b: Seq<ArenaElement>, id: int, hi: int)
    requires
        nodes_wf(a),
        same_shape(a, b),
        0 <= id < a.len(),
        node_end(a, id) <= hi,
        forall|i: int| id <= i < hi && i < a.len() ==> scoped_node(a[i], #[trigger] b[i]),
    ensures
        node_view(b, id) == scoped_element(node_view(a, id)),
    decreases 2 * (a.len() - id) + 1,
{
    lemma_end_bounds(a, id);
    lemma_children_end(a, id);
    assert(node_wf(a, id));
    assert(scoped_node(a[id], b[id]));
    match children_of(a[id]) {
        Some(c) => {
            lemma_ends_within_widen(a, c, node_end(a, id), hi);
            lemma_scoped_children_view(a, b, c, id, hi);
            assert(children_of(b[id]) == Some(c));
        },
        None => {
            assert(children_of(b[id]) is None);
        },
    }
}

/// `lemma_scoped_view` for the children of the node in the slot `parent`.
pub proof fn lemma_scoped_children_view(
    a: Seq<ArenaElement>,
    b: Seq<ArenaElement>,
    c: Children<ArenaId>,
    parent: int,
    hi: int,
)
    requires
        nodes_wf(a),
        same_shape(a, b),
        0 <= parent < a.len(),
        ids_within(c, parent + 1, a.len() as int),
        ends_within(a, c, hi),
        forall|i: int| parent < i < hi && i < a.len() ==> scoped_node(a[i], #[trigger] b[i]),
    ensures
        children_view(b, c, parent) == scoped_children(children_view(a, c, parent)),
    decreases 2 * (a.len() - parent), c,
{
    match c {
        Children::Elements(list) => {
            assert forall|i: int| 0 <= i < list@.len() implies children_view(b, list@[i], parent)
                == scoped_children(children_view(a, list@[i], parent)) by {
                lemma_scoped_children_view(a, b, list@[i], parent, hi);
            }
            assert(children_view(b, c, parent)->Elements_0 =~= scoped_children(
                children_view(a, c, parent),
            )->Elements_0);
        },
        Children::Element(id) => {
            lemma_scoped_view(a, b, id@, hi);
        },
        Children::Text(_) => {},
    }
}

/// Every style sheet that a node in `lo..hi` declares is accounted for: its
/// class is in `flushed` or among the classes of `pending`.
pub proof fn lemma_pending_complete(
    nodes: Seq<ArenaElement>,
    lo: int,
    hi: int,
    flushed: Seq<Seq<char>>,
    i: int,
)
    requires
        lo <= i < hi,
        styled(nodes[i]) is Some,
    ensures
        (flushed + classes(pending(nodes, lo, hi, flushed))).contains(styled(nodes[i]).unwrap().0),
    decreases hi - lo,
{
    let all = flushed + classes(pending(nodes, lo, hi, flushed));
    match styled(nodes[lo]) {
        Some((class, css)) => {
            if flushed.contains(class) {
                if i == lo {
                    let k = choose|k: int| 0 <= k < flushed.len() && flushed[k] == class;
                    assert(all[k] == class);
                } else {
                    lemma_pending_complete(nodes, lo + 1, hi, flushed, i);
                }
            } else {
                let next = flushed.push(class);
                assert(all =~= next + classes(pending(nodes, lo + 1, hi, next)));
                if i == lo {
                    assert(all[flushed.len() as int] == class);
                } else {
                    lemma_pending_complete(nodes, lo + 1, hi, next, i);
                }
            }
        },
        None => {
            lemma_pending_complete(nodes, lo + 1, hi, flushed, i);
        },
    }
}

/// Where the class of every style sheet that a node in `lo..hi` declares is
/// in `flushed`, nothing is pending.
pub proof fn lemma_pending_none(
    nodes: Seq<ArenaElement>,
    lo: int,
    hi: int,
    flushed: Seq<Seq<char>>,
)
    requires
        forall|i: int|
            lo <= i < hi && styled(#[trigger] nodes[i]) is Some ==> flushed.contains(
                styled(nodes[i]).unwrap().0,
            ),
    ensures
        pending(nodes, lo, hi, flushed) == Seq::<(Seq<char>, Seq<char>)>::empty(),
    decreases hi - lo,
{
    if lo < hi {
        lemma_pending_none(nodes, lo + 1, hi, flushed);
    }
}

/// Collecting is idempotent: once the classes of the pending style sheets are
/// listed, nothing is pending.
pub proof fn lemma_pending_idempotent(
    nodes: Seq<ArenaElement>,
    lo: int,
    hi: int,
    flushed: Seq<Seq<char>>,
)
    ensures
        pending(nodes, lo, hi, flushed + classes(pending(nodes, lo, hi, flushed))) == Seq::<
            (Seq<char>, Seq<char>),
        >::empty(),
{
    let all = flushed + classes(pending(nodes, lo, hi, flushed));
    assert forall|i: int| lo <= i < hi && styled(#[trigger] nodes[i]) is Some implies all.contains(
        styled(nodes[i]).unwrap().0,
    ) by {
        lemma_pending_complete(nodes, lo, hi, flushed, i);
    }
    lemma_pending_none(nodes, lo, hi, all);
}

impl Page {
    /// The arena is well-formed and holds the root, and no class is listed
    /// twice.
    pub open spec fn wf(&self) -> bool {
        &&& self.arena.wf()
        &&& self.dom@ < self.arena@.len()
        &&& texts(self.scopes@).no_duplicates()
    }

    /// Everything but the arena is the same in both pages.
    pub open spec fn same_frame(&self, other: &Page) -> bool {
        &&& self.path == other.path
        &&& self.url == other.url
        &&& self.dom == other.dom
        &&& self.style == other.style
        &&& self.scopes == other.scopes
        &&& self.script == other.script
        &&& self.id == other.id
    }

    /// The page at the site path `path`, loaded from `url`, with the tree
    /// `boxed` and the client script `script`. Its id is the short name of
    /// `url`; no style sheet is gathered yet.
    pub fn new(url: String, path: String, boxed: &BoxedElement, script: String) -> (r: Page)
        requires
            boxed.wf(),
        ensures
            r.wf(),
            r.url == url,
            r.path == path,
            r.script == script,
            r.dom@ == 0,
            node_view(r.arena@, 0) == boxed@,
            node_end(r.arena@, 0) == r.arena@.len(),
            r.style@ == Seq::<char>::empty(),
            r.scopes@.len() == 0,
            r.id@ == hash_text(url@),
    {
        let mut arena = Arena::new();
        let dom = ArenaElement::from_boxed(&mut arena, boxed, None);
        let id = hash_string(url.as_str());
        Page { path, url, arena, dom, style: String::new(), scopes: Vec::new(), script, id }
    }

    /// A copy of the short name of the page.
    pub fn id(&self) -> (r: String)
        ensures
            r@ == self.id@,
    {
        self.id.clone()
    }

    /// Scope assignment: walks the subtree of `id` parent first and appends
    /// the class of its component to the `class` of every intrinsic node.
    ///
    /// The walk stops at the first node whose `class` is no string and
    /// reports it; the nodes before it keep their new class.
    pub fn process_scopes(&mut self, id: ArenaId) -> (r: Result<(), PropTypeError>)
        requires
            old(self).wf(),
            id@ < old(self).arena@.len(),
        ensures
            final(self).wf(),
            final(self).same_frame(old(self)),
            same_shape(old(self).arena@, final(self).arena@),
            scoped_upto(
                old(self).arena@,
                final(self).arena@,
                id@,
                first_unscopable(old(self).arena@, id@, node_end(old(self).arena@, id@)),
            ),
            r is Ok <==> first_unscopable(old(self).arena@, id@, node_end(old(self).arena@, id@))
                == node_end(old(self).arena@, id@),
            r is Ok ==> node_view(final(self).arena@, id@) == scoped_element(
                node_view(old(self).arena@, id@),
            ),
            r is Err ==> r->Err_0.key@ == "class"@ && r->Err_0.val@ == scope_class(
                scope_of(
                    old(self).arena@[first_unscopable(
                        old(self).arena@,
                        id@,
                        node_end(old(self).arena@, id@),
                    )],
                ),
            ),
    {
        let end = self.arena.subtree_end(id);
        let mut i: usize = id.index();
        let ghost before = self.arena@;
        while i < end
            invariant
                id@ <= i <= end,
                end == node_end(before, id@),
                end <= before.len(),
                before == old(self).arena@,
                nodes_wf(before),
                self.wf(),
                self.same_frame(old(self)),
                same_shape(before, self.arena@),
                scoped_upto(before, self.arena@, id@, i as int),
                first_unscopable(before, i as int, end as int) == first_unscopable(
                    before,
                    id@,
                    end as int,
                ),
            decreases end - i,
        {
            let slot = ArenaId::from_index(i);
            assert(node_wf(before, i as int));
            assert(self.arena@[i as int] == before[i as int]);
            let class: Option<String> = match self.arena.index(slot) {
                ArenaElement::Intrinsic { props, scope, .. } => {
                    let class = scope_class_of(scope.as_str());
                    let fits = match props.get("class") {
                        None => true,
                        Some(v) => v.as_str().is_some(),
                    };
                    if !fits {
                        return Err(PropTypeError { key: "class".to_owned(), val: class });
                    }
                    Some(class)
                },
                ArenaElement::Virtual { .. } => None,
            };
            match class {
                Some(class) => {
                    let ghost mid = self.arena@;
                    let res = self.arena.props_mut(slot).append_string_space_separated(
                        "class".to_owned(),
                        class,
                    );
                    proof {
                        let now = self.arena@;
                        assert(same_shape(mid, now));
                        assert forall|k: int| 0 <= k < now.len() implies props_of(
                            #[trigger] now[k],
                        ).wf() by {
                            assert(node_wf(mid, k));
                        }
                        lemma_wf_same_shape(mid, now);
                    }
                },
                None => {},
            }
            i += 1;
        }
        proof {
            lemma_scoped_view(before, self.arena@, id@, end as int);
        }
        Ok(())
    }

    /// The style sheets that the subtree of `id` contributes: for every class
    /// whose style sheet is not gathered yet, the style sheet of the first
    /// virtual node that declares one, in the order of the walk.
    pub fn pending_styles(&self, id: ArenaId) -> (r: Vec<StyleSource>)
        requires
            self.wf(),
            id@ < self.arena@.len(),
        ensures
            sources(r@) == pending(
                self.arena@,
                id@,
                node_end(self.arena@, id@),
                texts(self.scopes@),
            ),
    {
        let end = self.arena.subtree_end(id);
        let mut i: usize = id.index();
        let mut jobs: Vec<StyleSource> = Vec::new();
        let ghost nodes = self.arena@;
        let ghost flushed = texts(self.scopes@);
        assert(flushed + classes(sources(jobs@)) =~= flushed);
        assert(sources(jobs@) + pending(nodes, id@, end as int, flushed) =~= pending(
            nodes,
            id@,
            end as int,
            flushed,
        ));
        while i < end
            invariant
                id@ <= i <= end,
                end <= nodes.len(),
                nodes == self.arena@,
                flushed == texts(self.scopes@),
                sources(jobs@) + pending(
                    nodes,
                    i as int,
                    end as int,
                    flushed + classes(sources(jobs@)),
                ) == pending(nodes, id@, end as int, flushed),
            decreases end - i,
        {
            let ghost seen = flushed + classes(sources(jobs@));
            let ghost done = sources(jobs@);
            match self.arena.index(ArenaId::from_index(i)) {
                ArenaElement::Virtual { style: Some(css), scope, .. } => {
                    let class = scope_class_of(scope.as_str());
                    let known = contains_text(&self.scopes, class.as_str()) || contains_class(
                        &jobs,
                        class.as_str(),
                    );
                    proof {
                        if flushed.contains(class@) {
                            let k = choose|k: int| 0 <= k < flushed.len() && flushed[k] == class@;
                            assert(seen[k] == class@);
                        }
                        if classes(done).contains(class@) {
                            let k = choose|k: int|
                                0 <= k < classes(done).len() && classes(done)[k] == class@;
                            assert(seen[flushed.len() + k] == class@);
                        }
                        if seen.contains(class@) {
                            let k = choose|k: int| 0 <= k < seen.len() && seen[k] == class@;
                            if k < flushed.len() {
                                assert(flushed[k] == class@);
                            } else {
                                assert(classes(done)[k - flushed.len()] == class@);
                            }
                        }
                        assert(known == seen.contains(class@));
                    }
                    if !known {
                        jobs.push(StyleSource { scope: class, css: css.clone() });
                        proof {
                            let job = (class@, css@);
                            assert(sources(jobs@) =~= done.push(job));
                            assert(flushed + classes(sources(jobs@)) =~= seen.push(class@));
                            assert(sources(jobs@) + pending(
                                nodes,
                                i as int + 1,
                                end as int,
                                seen.push(class@),
                            ) =~= done + (seq![job] + pending(
                                nodes,
                                i as int + 1,
                                end as int,
                                seen.push(class@),
                            )));
                        }
                    }
                },
                _ => {},
            }
            i += 1;
        }
        assert(sources(jobs@) + Seq::<(Seq<char>, Seq<char>)>::empty() =~= sources(jobs@));
        jobs
    }

    /// The style collector: appends the rewritten style sheets of the subtree
    /// of `id` to the style sheet of the page and lists their classes, so
    /// that no class contributes twice.
    ///
    /// `rewritten` holds, for each style sheet of `pending_styles` in its
    /// order, the text to append. Where the numbers differ the page is left
    /// as it is.
    pub fn process_styles(&mut self, id: ArenaId, rewritten: &Vec<String>) -> (r: Result<
        (),
        StyleCountError,
    >)
        requires
            old(self).wf(),
            id@ < old(self).arena@.len(),
        ensures
            final(self).wf(),
            final(self).arena == old(self).arena,
            final(self).path == old(self).path,
            final(self).url == old(self).url,
            final(self).dom == old(self).dom,
            final(self).script == old(self).script,
            final(self).id == old(self).id,
            match r {
                Ok(_) => {
                    &&& rewritten@.len() == old(self).pending_from(id@).len()
                    &&& final(self).pending_from(id@).len() == 0
                    &&& final(self).style@ == old(self).style@ + texts(rewritten@).flatten()
                    &&& texts(final(self).scopes@) == texts(old(self).scopes@) + classes(
                        old(self).pending_from(id@),
                    )
                },
                Err(e) => {
                    &&& rewritten@.len() != old(self).pending_from(id@).len()
                    &&& e.expected == old(self).pending_from(id@).len()
                    &&& e.found == rewritten@.len()
                    &&& final(self).style == old(self).style
                    &&& final(self).scopes == old(self).scopes
                },
            },
    {
        let jobs = self.pending_styles(id);
        if jobs.len() != rewritten.len() {
            return Err(StyleCountError { expected: jobs.len(), found: rewritten.len() });
        }
        let ghost flushed = texts(self.scopes@);
        let ghost sheets = sources(jobs@);
        proof {
            lemma_pending_distinct(
                self.arena@,
                id@,
                node_end(self.arena@, id@),
                flushed,
            );
        }
        let mut k: usize = 0;
        assert(texts(self.scopes@) =~= flushed + classes(sheets).take(0));
        assert(texts(rewritten@).take(0).flatten() =~= Seq::<char>::empty());
        assert(self.style@ =~= old(self).style@ + texts(rewritten@).take(0).flatten());
        while k < jobs.len()
            invariant
                k <= jobs.len(),
                jobs.len() == rewritten.len(),
                sheets == sources(jobs@),
                self.arena == old(self).arena,
                self.path == old(self).path,
                self.url == old(self).url,
                self.dom == old(self).dom,
                self.script == old(self).script,
                self.id == old(self).id,
                texts(self.scopes@) == flushed + classes(sheets).take(k as int),
                self.style@ == old(self).style@ + texts(rewritten@).take(k as int).flatten(),
            decreases jobs.len() - k,
        {
            let ghost listed = texts(self.scopes@);
            self.scopes.push(jobs[k].scope.clone());
            self.style.append(rewritten[k].as_str());
            proof {
                assert(texts(self.scopes@) =~= listed.push(jobs@[k as int].scope@));
                assert(classes(sheets)[k as int] == jobs@[k as int].scope@);
                assert(classes(sheets).take(k as int + 1) =~= classes(sheets).take(k as int).push(
                    classes(sheets)[k as int],
                ));
                assert(texts(self.scopes@) =~= flushed + classes(sheets).take(k as int + 1));
                assert(texts(rewritten@).take(k as int + 1) =~= texts(rewritten@).take(
                    k as int,
                ).push(rewritten@[k as int]@));
                texts(rewritten@).take(k as int).lemma_flatten_push(rewritten@[k as int]@);
            }
            k += 1;
        }
        proof {
            assert(classes(sheets).take(k as int) =~= classes(sheets));
            assert(texts(rewritten@).take(k as int) =~= texts(rewritten@));
            lemma_pending_idempotent(self.arena@, id@, node_end(self.arena@, id@), flushed);
        }
        Ok(())
    }

    /// Renders the page: assigns scopes, gathers the style sheets, serialises
    /// the tree behind a doctype, and injects the style sheet into the head
    /// and the client script into the body.
    ///
    /// `rewritten` holds the rewritten style sheets, as `process_styles` takes
    /// them. The page keeps what the steps before a failure did to it.
    pub fn render_to_string(&mut self, rewritten: &Vec<String>) -> (r: Result<String, RenderError>)
        requires
            old(self).wf(),
        ensures
            final(self).wf(),
            same_shape(old(self).arena@, final(self).arena@),
            final(self).path == old(self).path,
            final(self).url == old(self).url,
            final(self).dom == old(self).dom,
            final(self).script == old(self).script,
            final(self).id == old(self).id,
            ({
                let before = old(self).arena@;
                let after = final(self).arena@;
                let dom = old(self).dom@;
                let end = node_end(before, dom);
                let stop = first_unscopable(before, dom, end);
                let sheets = pending(after, dom, end, texts(old(self).scopes@));
                &&& scoped_upto(before, after, dom, stop)
                &&& stop == end ==> node_view(after, dom) == scoped_element(node_view(before, dom))
                &&& stop < end ==> {
                    &&& r is Err
                    &&& r->Err_0 is PropType
                    &&& r->Err_0->PropType_0.key@ == "class"@
                    &&& r->Err_0->PropType_0.val@ == scope_class(scope_of(before[stop]))
                    &&& final(self).style == old(self).style
                    &&& final(self).scopes == old(self).scopes
                }
                &&& stop == end && rewritten@.len() != sheets.len() ==> {
                    &&& r is Err
                    &&& r->Err_0 is Styles
                    &&& r->Err_0->Styles_0.expected == sheets.len()
                    &&& r->Err_0->Styles_0.found == rewritten@.len()
                    &&& final(self).style == old(self).style
                    &&& final(self).scopes == old(self).scopes
                }
                &&& stop == end && rewritten@.len() == sheets.len() ==> {
                    &&& final(self).style@ == old(self).style@ + texts(rewritten@).flatten()
                    &&& texts(final(self).scopes@) == texts(old(self).scopes@) + classes(sheets)
                    &&& match appended_to_head_and_body(
                        document_text(after, dom),
                        style_tag(final(self).style@),
                        script_tag(old(self).script@),
                    ) {
                        Some(html) => r is Ok && r->Ok_0@ == html,
                        None => r is Err && r->Err_0 is Rewrite,
                    }
                }
            }),
    {
        let dom = self.dom;
        match self.process_scopes(dom) {
            Err(e) => {
                return Err(RenderError::PropType(e));
            },
            Ok(_) => {},
        }
        proof {
            lemma_end_same_shape(old(self).arena@, self.arena@, dom@);
        }
        match self.process_styles(dom, rewritten) {
            Err(e) => {
                return Err(RenderError::Styles(e));
            },
            Ok(_) => {},
        }
        let body = self.arena.render(dom);
        let mut html = String::new();
        html.append("<!DOCTYPE html>");
        html.append(body.as_str());
        let mut style = String::new();
        style.append("<style>");
        style.append(self.style.as_str());
        style.append("</style>");
        let mut script = String::new();
        script.append("<script type=\"module\">");
        script.append(self.script.as_str());
        script.append("</script>");
        proof {
            assert(html@ =~= document_text(self.arena@, dom@));
            assert(style@ =~= style_tag(self.style@));
            assert(script@ =~= script_tag(self.script@));
        }
        match append_to_head_and_body(html.as_str(), style.as_str(), script.as_str()) {
            Ok(out) => Ok(out),
            Err(e) => Err(RenderError::Rewrite(rewriting_error_text(&e))),
        }
    }

    /// The style sheets that the subtree of `id` contributes.
    pub open spec fn pending_from(&self, id: int) -> Seq<(Seq<char>, Seq<char>)> {
        pending(self.arena@, id, node_end(self.arena@, id), texts(self.scopes@))
    }
}

} // verus!
