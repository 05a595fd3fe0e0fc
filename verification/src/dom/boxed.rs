//! The tree as a scripting engine hands it over: every node owns its
//! children.

use vstd::prelude::*;

use crate::dom::Children;
use crate::dom::ChildrenView;
use crate::dom::ElementView;
use crate::dom::Props;
use crate::dom::PropsView;
use crate::dom::with_entry;
use crate::text::str_eq;
use crate::value::Value;
use crate::value::ValueView;
use crate::value::first_field;
use crate::value::lemma_array_view;
use crate::value::lemma_first_field;
use crate::value::lemma_object_view;

verus! {

/// A node that owns its children.
#[derive(Debug, PartialEq, Eq)]
pub enum BoxedElement {
    Intrinsic { props: Props, children: Option<Box<Children<BoxedElement>>>, scope: String, tag: String },
    Virtual {
        props: Props,
        children: Option<Box<Children<BoxedElement>>>,
        scope: String,
        style: Option<String>,
    },
}

/// The tree that `e` stands for.
pub open spec fn boxed_view(e: BoxedElement) -> ElementView
    decreases e,
{
    match e {
        BoxedElement::Intrinsic { props, children, scope, tag } => ElementView::Intrinsic {
            props: props@,
            children: match children {
                Some(c) => Some(boxed_children_view(*c)),
                None => None,
            },
            scope: scope@,
            tag: tag@,
        },
        BoxedElement::Virtual { props, children, scope, style } => ElementView::Virtual {
            props: props@,
            children: match children {
                Some(c) => Some(boxed_children_view(*c)),
                None => None,
            },
            scope: scope@,
            style: match style {
                Some(s) => Some(s@),
                None => None,
            },
        },
    }
}

/// The children that `c` stands for.
pub open spec fn boxed_children_view(c: Children<BoxedElement>) -> ChildrenView
    decreases c,
{
    match c {
        Children::Elements(list) => ChildrenView::Elements(
            Seq::new(
                list@.len(),
                |i: int|
                    if 0 <= i < list@.len() {
                        boxed_children_view(list@[i])
                    } else {
                        ChildrenView::Text(Seq::empty())
                    },
            ),
        ),
        Children::Element(e) => ChildrenView::Element(Box::new(boxed_view(e))),
        Children::Text(t) => ChildrenView::Text(t@),
    }
}

/// Every node of the tree has props with distinct keys.
pub open spec fn boxed_wf(e: BoxedElement) -> bool
    decreases e,
{
    match e {
        BoxedElement::Intrinsic { props, children, .. } => props.wf() && match children {
            Some(c) => boxed_children_wf(*c),
            None => true,
        },
        BoxedElement::Virtual { props, children, .. } => props.wf() && match children {
            Some(c) => boxed_children_wf(*c),
            None => true,
        },
    }
}

/// Every node among the children has props with distinct keys.
pub open spec fn boxed_children_wf(c: Children<BoxedElement>) -> bool
    decreases c,
{
    match c {
        Children::Elements(list) => forall|i: int|
            0 <= i < list@.len() ==> boxed_children_wf(#[trigger] list@[i]),
        Children::Element(e) => boxed_wf(e),
        Children::Text(_) => true,
    }
}

impl View for BoxedElement {
    type V = ElementView;

    open spec fn view(&self) -> ElementView {
        boxed_view(*self)
    }
}

impl BoxedElement {
    /// Every node of the tree has props with distinct keys.
    pub open spec fn wf(&self) -> bool {
        boxed_wf(*self)
    }

    /// A copy of the props of the node.
    pub fn props(&self) -> (r: Props)
        ensures
            r@ == match self@ {
                ElementView::Intrinsic { props, .. } => props,
                ElementView::Virtual { props, .. } => props,
            },
    {
        match self {
            BoxedElement::Intrinsic { props, .. } => props.clone(),
            BoxedElement::Virtual { props, .. } => props.clone(),
        }
    }

    /// The children of the node.
    pub fn children(&self) -> (r: Option<&Children<BoxedElement>>)
        ensures
            match r {
                Some(c) => Some(boxed_children_view(*c)) == match self@ {
                    ElementView::Intrinsic { children, .. } => children,
                    ElementView::Virtual { children, .. } => children,
                },
                None => match self@ {
                    ElementView::Intrinsic { children, .. } => children is None,
                    ElementView::Virtual { children, .. } => children is None,
                },
            },
            self.wf() && r is Some ==> boxed_children_wf(*r.unwrap()),
            r is Some ==> decreases_to!(*self => *r.unwrap()),
    {
        match self {
            BoxedElement::Intrinsic { children, .. } => match children {
                Some(c) => Some(&**c),
                None => None,
            },
            BoxedElement::Virtual { children, .. } => match children {
                Some(c) => Some(&**c),
                None => None,
            },
        }
    }

    /// A copy of the scope of the component that declared the node.
    pub fn scope(&self) -> (r: String)
        ensures
            r@ == match self@ {
                ElementView::Intrinsic { scope, .. } => scope,
                ElementView::Virtual { scope, .. } => scope,
            },
    {
        match self {
            BoxedElement::Intrinsic { scope, .. } => scope.clone(),
            BoxedElement::Virtual { scope, .. } => scope.clone(),
        }
    }
}

/// Why a value is no tree.
#[derive(Clone, Copy, PartialEq, Eq, Debug, Structural)]
pub enum TreeShapeError {
    /// The value is no object, or its `kind` is neither `intrinsic` nor
    /// `virtual`.
    UnknownKind,
    /// A field that the kind needs is absent or holds a value of another
    /// type.
    MissingField,
    /// The children are neither a text, a node, nor a list of children.
    BadChildren,
}

/// The value of the first field named `key`.
pub open spec fn field_of(fields: Seq<(Seq<char>, ValueView)>, key: Seq<char>) -> Option<
    ValueView,
> {
    match first_field(fields, key) {
        Some(i) => if 0 <= i < fields.len() {
            Some(fields[i].1)
        } else {
            None
        },
        None => None,
    }
}

/// The text of the first field named `key`, where it holds a string.
pub open spec fn text_field(fields: Seq<(Seq<char>, ValueView)>, key: Seq<char>) -> Option<
    Seq<char>,
> {
    match field_of(fields, key) {
        Some(ValueView::String(s)) => Some(s),
        _ => None,
    }
}

/// The text of the first field named `key`: `None` where the field is absent
/// or null, an error where it holds anything but a string.
pub open spec fn optional_text(fields: Seq<(Seq<char>, ValueView)>, key: Seq<char>) -> Result<
    Option<Seq<char>>,
    TreeShapeError,
> {
    match field_of(fields, key) {
        None => Ok(None),
        Some(ValueView::Null) => Ok(None),
        Some(ValueView::String(s)) => Ok(Some(s)),
        Some(_) => Err(TreeShapeError::MissingField),
    }
}

/// The props made of the first `n` fields of an object, a later field taking
/// the place of an earlier one with the same name.
pub open spec fn props_from(fields: Seq<(Seq<char>, ValueView)>, n: int) -> PropsView
    decreases n,
{
    if n <= 0 {
        Seq::empty()
    } else {
        with_entry(props_from(fields, n - 1), fields[n - 1].0, fields[n - 1].1)
    }
}

/// The node that the value `v` describes.
///
/// A node is an object whose `kind` is `intrinsic` or `virtual`. It needs
/// `props`, an object, and `scope`, a string; an intrinsic node needs `tag`, a
/// string. `children` may be absent or null; the `style` of a virtual node
/// may be absent, null or a string. Other fields are not read.
pub open spec fn decoded(v: ValueView) -> Result<ElementView, TreeShapeError>
    decreases v, 1int,
{
    match v {
        ValueView::Object(fields) => {
            let kind = text_field(fields, "kind"@);
            if kind != Some("intrinsic"@) && kind != Some("virtual"@) {
                Err(TreeShapeError::UnknownKind)
            } else {
                match field_of(fields, "props"@) {
                    Some(ValueView::Object(entries)) => match decoded_child_field(fields) {
                        Err(e) => Err(e),
                        Ok(children) => match text_field(fields, "scope"@) {
                            None => Err(TreeShapeError::MissingField),
                            Some(scope) => if kind == Some("intrinsic"@) {
                                match text_field(fields, "tag"@) {
                                    None => Err(TreeShapeError::MissingField),
                                    Some(tag) => Ok(
                                        ElementView::Intrinsic {
                                            props: props_from(entries, entries.len() as int),
                                            children,
                                            scope,
                                            tag,
                                        },
                                    ),
                                }
                            } else {
                                match optional_text(fields, "style"@) {
                                    Err(e) => Err(e),
                                    Ok(style) => Ok(
                                        ElementView::Virtual {
                                            props: props_from(entries, entries.len() as int),
                                            children,
                                            scope,
                                            style,
                                        },
                                    ),
                                }
                            },
                        },
                    },
                    _ => Err(TreeShapeError::MissingField),
                }
            }
        },
        _ => Err(TreeShapeError::UnknownKind),
    }
}

/// The children that the field `children` of an object describes: none where
/// the field is absent or null.
pub open spec fn decoded_child_field(fields: Seq<(Seq<char>, ValueView)>) -> Result<
    Option<ChildrenView>,
    TreeShapeError,
>
    decreases fields, 0int,
{
    match first_field(fields, "children"@) {
        None => Ok(None),
        Some(i) => if 0 <= i < fields.len() {
            if fields[i].1 is Null {
                Ok(None)
            } else {
                match decoded_children(fields[i].1) {
                    Ok(c) => Ok(Some(c)),
                    Err(e) => Err(e),
                }
            }
        } else {
            Ok(None)
        },
    }
}

/// The children that the value `v` describes: a list for an array whose
/// members all describe children, a node for an object that describes one,
/// a text for a string.
pub open spec fn decoded_children(v: ValueView) -> Result<ChildrenView, TreeShapeError>
    decreases v, 2int,
{
    match v {
        ValueView::Array(items) => match decoded_list(items, items.len() as int) {
            Ok(list) => Ok(ChildrenView::Elements(list)),
            Err(e) => Err(e),
        },
        ValueView::Object(_) => match decoded(v) {
            Ok(e) => Ok(ChildrenView::Element(Box::new(e))),
            Err(_) => Err(TreeShapeError::BadChildren),
        },
        ValueView::String(s) => Ok(ChildrenView::Text(s)),
        _ => Err(TreeShapeError::BadChildren),
    }
}

/// The children that the first `n` members of an array describe, where each
/// of them describes children.
pub open spec fn decoded_list(items: Seq<ValueView>, n: int) -> Result<
    Seq<ChildrenView>,
    TreeShapeError,
>
    decreases items, n,
{
    if n <= 0 || n > items.len() {
        Ok(Seq::empty())
    } else {
        match decoded_list(items, n - 1) {
            Err(e) => Err(e),
            Ok(list) => match decoded_children(items[n - 1]) {
                Ok(c) => Ok(list.push(c)),
                Err(_) => Err(TreeShapeError::BadChildren),
            },
        }
    }
}

/// The props made of the fields of an object.
fn props_of_fields(fields: &Vec<(String, Value)>) -> (r: Props)
    ensures
        r.wf(),
        r@ == props_from(Value::Object(*fields)@->Object_0, fields@.len() as int),
{
    proof {
        lemma_object_view(*fields);
    }
    let ghost views = Value::Object(*fields)@->Object_0;
    let mut props = Props::new();
    let mut i: usize = 0;
    while i < fields.len()
        invariant
            i <= fields.len(),
            props.wf(),
            views.len() == fields@.len(),
            forall|k: int|
                0 <= k < fields@.len() ==> (#[trigger] views[k]) == (fields@[k].0@, fields@[k].1@),
            props@ == props_from(views, i as int),
        decreases fields.len() - i,
    {
        let key = fields[i].0.clone();
        let val = fields[i].1.clone();
        assert(views[i as int] == (key@, val@));
        props.set(key, val);
        i += 1;
    }
    props
}

impl BoxedElement {
    /// The tree that the value `v` describes.
    pub fn from_value(v: &Value) -> (r: Result<BoxedElement, TreeShapeError>)
        ensures
            match decoded(v@) {
                Ok(e) => r is Ok && r->Ok_0@ == e && r->Ok_0.wf(),
                Err(e) => r is Err && r->Err_0 == e,
            },
        decreases v, 1int,
    {
        let ghost fields = v@->Object_0;
        proof {
            if v@ is Object {
                lemma_first_field(fields, "kind"@);
                lemma_first_field(fields, "props"@);
                lemma_first_field(fields, "children"@);
                lemma_first_field(fields, "scope"@);
                lemma_first_field(fields, "tag"@);
                lemma_first_field(fields, "style"@);
            }
        }
        let kind = match v.field("kind") {
            Some(k) => match k.as_str() {
                Some(s) => s,
                None => {
                    return Err(TreeShapeError::UnknownKind);
                },
            },
            None => {
                return Err(TreeShapeError::UnknownKind);
            },
        };
        let intrinsic = str_eq(kind, "intrinsic");
        if !intrinsic && !str_eq(kind, "virtual") {
            return Err(TreeShapeError::UnknownKind);
        }
        let props = match v.field("props") {
            Some(Value::Object(entries)) => {
                proof {
                    lemma_object_view(*entries);
                }
                props_of_fields(entries)
            },
            _ => {
                return Err(TreeShapeError::MissingField);
            },
        };
        let children = match v.field("children") {
            None => None,
            Some(c) => {
                if matches!(c, Value::Null) {
                    None
                } else {
                    match children_from_value(c) {
                        Ok(k) => Some(Box::new(k)),
                        Err(e) => {
                            return Err(e);
                        },
                    }
                }
            },
        };
        let scope = match v.field("scope") {
            Some(s) => match s.as_str() {
                Some(t) => t.to_owned(),
                None => {
                    return Err(TreeShapeError::MissingField);
                },
            },
            None => {
                return Err(TreeShapeError::MissingField);
            },
        };
        if intrinsic {
            let tag = match v.field("tag") {
                Some(s) => match s.as_str() {
                    Some(t) => t.to_owned(),
                    None => {
                        return Err(TreeShapeError::MissingField);
                    },
                },
                None => {
                    return Err(TreeShapeError::MissingField);
                },
            };
            Ok(BoxedElement::Intrinsic { props, children, scope, tag })
        } else {
            let style = match v.field("style") {
                None => None,
                Some(s) => {
                    if matches!(s, Value::Null) {
                        None
                    } else {
                        match s.as_str() {
                            Some(t) => Some(t.to_owned()),
                            None => {
                                return Err(TreeShapeError::MissingField);
                            },
                        }
                    }
                },
            };
            Ok(BoxedElement::Virtual { props, children, scope, style })
        }
    }
}

/// Where the first `n` members of an array do not all describe children, its
/// first `m` members do not either.
pub proof fn lemma_decoded_list_fails(items: Seq<ValueView>, n: int, m: int)
    requires
        0 <= n <= m <= items.len(),
        decoded_list(items, n) is Err,
    ensures
        decoded_list(items, m) == Err::<Seq<ChildrenView>, TreeShapeError>(
            TreeShapeError::BadChildren,
        ),
    decreases m,
{
    if n < m {
        lemma_decoded_list_fails(items, n, m - 1);
    } else {
        lemma_decoded_list_error(items, n);
    }
}

/// Members of an array that do not all describe children fail as bad
/// children.
pub proof fn lemma_decoded_list_error(items: Seq<ValueView>, n: int)
    requires
        decoded_list(items, n) is Err,
    ensures
        decoded_list(items, n) == Err::<Seq<ChildrenView>, TreeShapeError>(
            TreeShapeError::BadChildren,
        ),
    decreases n,
{
    if 0 < n <= items.len() {
        if decoded_list(items, n - 1) is Err {
            lemma_decoded_list_error(items, n - 1);
        }
    }
}

/// The children that the value `v` describes.
pub fn children_from_value(v: &Value) -> (r: Result<Children<BoxedElement>, TreeShapeError>)
    ensures
        match decoded_children(v@) {
            Ok(c) => r is Ok && boxed_children_view(r->Ok_0) == c && boxed_children_wf(r->Ok_0),
            Err(e) => r is Err && r->Err_0 == e,
        },
    decreases v, 2int,
{
    match v {
        Value::Array(items) => {
            proof {
                lemma_array_view(*items);
            }
            let ghost views = v@->Array_0;
            let mut out: Vec<Children<BoxedElement>> = Vec::new();
            let mut i: usize = 0;
            #[verifier::loop_isolation(false)]
            while i < items.len()
                invariant
                    i <= items.len(),
                    out@.len() == i,
                    decoded_list(views, i as int) is Ok,
                    decoded_list(views, i as int).unwrap().len() == i,
                    forall|k: int|
                        0 <= k < i ==> boxed_children_view(#[trigger] out@[k]) == decoded_list(
                            views,
                            i as int,
                        ).unwrap()[k] && boxed_children_wf(out@[k]),
                decreases items.len() - i,
            {
                assert(views[i as int] == items@[i as int]@);
                match children_from_value(&items[i]) {
                    Ok(c) => {
                        out.push(c);
                    },
                    Err(_) => {
                        proof {
                            lemma_decoded_list_fails(views, i as int + 1, views.len() as int);
                        }
                        return Err(TreeShapeError::BadChildren);
                    },
                }
                i += 1;
            }
            let r = Children::Elements(out);
            proof {
                assert(boxed_children_view(r)->Elements_0 =~= decoded_list(
                    views,
                    views.len() as int,
                ).unwrap());
            }
            Ok(r)
        },
        Value::Object(_) => match BoxedElement::from_value(v) {
            Ok(e) => Ok(Children::Element(e)),
            Err(_) => Err(TreeShapeError::BadChildren),
        },
        Value::String(s) => Ok(Children::Text(s.clone())),
        _ => Err(TreeShapeError::BadChildren),
    }
}

} // verus!
