//! Props and children, the parts that every node of a tree has.

use vstd::prelude::*;

use crate::text::str_eq;
use crate::value::Value;
use crate::value::ValueView;

pub mod arena;
pub mod boxed;
pub mod layout;

verus! {

/// The entries of a [`Props`], in the order in which they were set.
pub type PropsView = Seq<(Seq<char>, ValueView)>;

/// No key occurs twice.
pub open spec fn keys_distinct(p: PropsView) -> bool {
    forall|i: int, j: int| 0 <= i < j < p.len() ==> p[i].0 != p[j].0
}

/// Some entry has the key `key`.
pub open spec fn has_key(p: PropsView, key: Seq<char>) -> bool {
    exists|i: int| 0 <= i < p.len() && #[trigger] p[i].0 == key
}

/// The index of an entry with the key `key`; the only one where the keys are
/// distinct.
pub open spec fn position(p: PropsView, key: Seq<char>) -> int {
    choose|i: int| 0 <= i < p.len() && #[trigger] p[i].0 == key
}

/// The value stored under `key`.
pub open spec fn lookup(p: PropsView, key: Seq<char>) -> Option<ValueView> {
    if has_key(p, key) {
        Some(p[position(p, key)].1)
    } else {
        None
    }
}

/// The props `p` with `val` stored under `key`: in the place of the entry with
/// that key, or behind all entries where there is none.
pub open spec fn with_entry(p: PropsView, key: Seq<char>, val: ValueView) -> PropsView {
    if has_key(p, key) {
        p.update(position(p, key), (key, val))
    } else {
        p.push((key, val))
    }
}

/// The text of one prop inside a start tag.
///
/// `true` gives the bare key, a number or a string gives `key="value"`, and an
/// array or an object gives a marker in place of its value. `false` and `null`
/// give no text.
pub open spec fn prop_text(key: Seq<char>, value: ValueView) -> Seq<char> {
    match value {
        ValueView::Bool(true) => key,
        ValueView::Number(n) => key + "=\""@ + n + "\""@,
        ValueView::String(s) => key + "=\""@ + s + "\""@,
        ValueView::Array(_) => key + "=\""@ + "[Array]\""@,
        ValueView::Object(_) => key + "[Object]\""@,
        _ => Seq::empty(),
    }
}

/// The texts of the first `n` props, with one space between neighbours.
pub open spec fn joined_props(p: PropsView, n: int) -> Seq<char>
    decreases n,
{
    if n <= 0 {
        Seq::empty()
    } else if n == 1 {
        prop_text(p[0].0, p[0].1)
    } else {
        joined_props(p, n - 1) + " "@ + prop_text(p[n - 1].0, p[n - 1].1)
    }
}

/// The text of all props inside a start tag: empty where the joined texts are
/// empty, else a space followed by them.
pub open spec fn props_text(p: PropsView) -> Seq<char> {
    let joined = joined_props(p, p.len() as int);
    if joined.len() == 0 {
        Seq::empty()
    } else {
        " "@ + joined
    }
}

/// A prop holds a value to which no string can be appended.
#[derive(Debug, PartialEq, Eq)]
pub struct PropTypeError {
    /// The key of the prop.
    pub key: String,
    /// The text that was to be appended.
    pub val: String,
}

/// The props of a node: values under distinct string keys.
#[derive(Debug, PartialEq, Eq)]
pub struct Props(Vec<(String, Value)>);

impl View for Props {
    type V = PropsView;

    closed spec fn view(&self) -> PropsView {
        Seq::new(self.0@.len(), |i: int| (self.0@[i].0@, self.0@[i].1@))
    }
}

impl Clone for Props {
    fn clone(&self) -> (r: Self)
        ensures
            r@ == self@,
    {
        let mut out: Vec<(String, Value)> = Vec::new();
        let mut i: usize = 0;
        while i < self.0.len()
            invariant
                i <= self.0.len(),
                out@.len() == i,
                forall|k: int|
                    0 <= k < i ==> out@[k].0@ == self.0@[k].0@ && out@[k].1@ == self.0@[k].1@,
            decreases self.0.len() - i,
        {
            out.push((self.0[i].0.clone(), self.0[i].1.clone()));
            i += 1;
        }
        let r = Props(out);
        assert(r@ =~= self@);
        r
    }
}

impl Props {
    /// The keys are distinct: what every `Props` made by this module holds.
    pub open spec fn wf(&self) -> bool {
        keys_distinct(self@)
    }

    /// Props without entries.
    pub fn new() -> (r: Self)
        ensures
            r@ == Seq::<(Seq<char>, ValueView)>::empty(),
            r.wf(),
    {
        let r = Props(Vec::new());
        assert(r@ =~= Seq::<(Seq<char>, ValueView)>::empty());
        r
    }

    /// The number of entries.
    pub fn len(&self) -> (r: usize)
        ensures
            r == self@.len(),
    {
        self.0.len()
    }

    fn find(&self, key: &str) -> (r: Option<usize>)
        ensures
            match r {
                Some(i) => i < self@.len() && self@[i as int].0 == key@,
                None => !has_key(self@, key@),
            },
            self.wf() && r is Some ==> has_key(self@, key@) && position(self@, key@) == r.unwrap(),
    {
        let mut i: usize = 0;
        while i < self.0.len()
            invariant
                i <= self.0.len(),
                forall|j: int| 0 <= j < i ==> self@[j].0 != key@,
            decreases self.0.len() - i,
        {
            if str_eq(self.0[i].0.as_str(), key) {
                assert(self@[i as int].0 == key@);
                return Some(i);
            }
            i += 1;
        }
        None
    }

    /// The value under `key`.
    pub fn get(&self, key: &str) -> (r: Option<&Value>)
        requires
            self.wf(),
        ensures
            match r {
                Some(v) => lookup(self@, key@) == Some(v@),
                None => lookup(self@, key@) is None,
            },
    {
        match self.find(key) {
            Some(i) => Some(&self.0[i].1),
            None => None,
        }
    }

    /// The value under `key`, to be changed in place.
    pub fn get_mut(&mut self, key: &str) -> (r: Option<&mut Value>)
        requires
            old(self).wf(),
        ensures
            match r {
                Some(v) => lookup(old(self)@, key@) == Some(v@) && final(self)@ == old(self)@.update(
                    position(old(self)@, key@),
                    (key@, final(v)@),
                ),
                None => lookup(old(self)@, key@) is None && final(self)@ == old(self)@,
            },
            final(self).wf(),
    {
        match self.find(key) {
            Some(i) => Some(&mut self.0[i].1),
            None => None,
        }
    }

    /// Stores `val` under `key` and hands back the value that was there.
    pub fn set(&mut self, key: String, val: Value) -> (r: Option<Value>)
        requires
            old(self).wf(),
        ensures
            final(self).wf(),
            final(self)@ == with_entry(old(self)@, key@, val@),
            match r {
                Some(prev) => lookup(old(self)@, key@) == Some(prev@) && final(self)@ == old(self)@.update(position(old(self)@, key@), (key@, val@)),
                None => lookup(old(self)@, key@) is None && final(self)@ == old(self)@.push(
                    (key@, val@),
                ),
            },
    {
        match self.find(key.as_str()) {
            Some(i) => {
                let mut prev = val;
                core::mem::swap(&mut self.0[i].1, &mut prev);
                assert(self@ =~= old(self)@.update(i as int, (key@, val@)));
                Some(prev)
            },
            None => {
                self.0.push((key, val));
                assert(self@ =~= old(self)@.push((key@, val@)));
                None
            },
        }
    }

    /// Takes the entry under `key` out and hands back its value.
    pub fn remove(&mut self, key: &str) -> (r: Option<Value>)
        requires
            old(self).wf(),
        ensures
            final(self).wf(),
            match r {
                Some(prev) => lookup(old(self)@, key@) == Some(prev@) && final(self)@ == old(self)@.remove(position(old(self)@, key@)),
                None => lookup(old(self)@, key@) is None && final(self)@ == old(self)@,
            },
    {
        match self.find(key) {
            Some(i) => {
                let entry = self.0.remove(i);
                assert(self@ =~= old(self)@.remove(i as int));
                Some(entry.1)
            },
            None => None,
        }
    }

    /// Appends `val` to the string under `key`, after one space; where there
    /// is no such prop, sets it to `val`.
    ///
    /// A prop that holds anything but a string is left as it is and reported.
    pub fn append_string_space_separated(&mut self, key: String, val: String) -> (r: Result<
        (),
        PropTypeError,
    >)
        requires
            old(self).wf(),
        ensures
            final(self).wf(),
            match lookup(old(self)@, key@) {
                None => r is Ok && final(self)@ == old(self)@.push(
                    (key@, ValueView::String(val@)),
                ),
                Some(ValueView::String(s)) => r is Ok && final(self)@ == old(self)@.update(
                    position(old(self)@, key@),
                    (key@, ValueView::String(s + " "@ + val@)),
                ),
                Some(_) => r is Err && r->Err_0.key@ == key@ && r->Err_0.val@ == val@ && final(self)@ == old(self)@,
            },
    {
        match self.find(key.as_str()) {
            None => {
                self.0.push((key, Value::String(val)));
                assert(self@ =~= old(self)@.push((key@, ValueView::String(val@))));
                Ok(())
            },
            Some(i) => {
                let joined = match &self.0[i].1 {
                    Value::String(s) => {
                        let mut t = s.clone();
                        t.append(" ");
                        t.append(val.as_str());
                        Some(t)
                    },
                    _ => None,
                };
                match joined {
                    Some(t) => {
                        let mut next = Value::String(t);
                        core::mem::swap(&mut self.0[i].1, &mut next);
                        assert(self@ =~= old(self)@.update(
                            i as int,
                            (key@, ValueView::String(old(self)@[i as int].1->String_0 + " "@ + val@)),
                        ));
                        Ok(())
                    },
                    None => Err(PropTypeError { key, val }),
                }
            },
        }
    }

    /// The props as they stand inside a start tag.
    pub fn to_string(&self) -> (r: String)
        ensures
            r@ == props_text(self@),
    {
        let mut joined = String::new();
        let mut i: usize = 0;
        while i < self.0.len()
            invariant
                i <= self.0.len(),
                joined@ == joined_props(self@, i as int),
            decreases self.0.len() - i,
        {
            if i > 0 {
                joined.append(" ");
            }
            let text = prop_to_string(self.0[i].0.as_str(), &self.0[i].1);
            joined.append(text.as_str());
            proof {
                if i == 0 {
                    assert(joined@ =~= prop_text(self@[0].0, self@[0].1));
                }
            }
            i += 1;
        }
        if joined.as_str().is_empty() {
            joined
        } else {
            let mut r = String::new();
            r.append(" ");
            r.append(joined.as_str());
            assert(r@ =~= " "@ + joined@);
            r
        }
    }
}

/// The text of one prop inside a start tag.
pub fn prop_to_string(key: &str, value: &Value) -> (r: String)
    ensures
        r@ == prop_text(key@, value@),
{
    let mut out = String::new();
    match value {
        Value::Bool(true) => {
            out.append(key);
            assert(out@ =~= key@);
        },
        Value::Number(n) => {
            out.append(key);
            out.append("=\"");
            out.append(n.as_str());
            out.append("\"");
            assert(out@ =~= key@ + "=\""@ + n@ + "\""@);
        },
        Value::String(s) => {
            out.append(key);
            out.append("=\"");
            out.append(s.as_str());
            out.append("\"");
            assert(out@ =~= key@ + "=\""@ + s@ + "\""@);
        },
        Value::Array(_) => {
            out.append(key);
            out.append("=\"");
            out.append("[Array]\"");
            assert(out@ =~= key@ + "=\""@ + "[Array]\""@);
        },
        Value::Object(_) => {
            out.append(key);
            out.append("[Object]\"");
            assert(out@ =~= key@ + "[Object]\""@);
        },
        _ => {},
    }
    out
}

/// The children of a node: a text, one node, or a list of children. The
/// order of a list is the order in which its members are rendered.
#[derive(Debug, PartialEq, Eq)]
pub enum Children<T> {
    Elements(Vec<Children<T>>),
    Element(T),
    Text(String),
}

/// The children of a node of a tree, as a mathematical value.
pub enum ChildrenView {
    Elements(Seq<ChildrenView>),
    Element(Box<ElementView>),
    Text(Seq<char>),
}

/// A node of a tree, as a mathematical value.
pub enum ElementView {
    Intrinsic { props: PropsView, children: Option<ChildrenView>, scope: Seq<char>, tag: Seq<char> },
    Virtual {
        props: PropsView,
        children: Option<ChildrenView>,
        scope: Seq<char>,
        style: Option<Seq<char>>,
    },
}

/// The HTML of a node.
///
/// An intrinsic node is an element with its tag, its props and the HTML of
/// its children. A virtual node is the HTML of its children and nothing more.
pub open spec fn element_html(e: ElementView) -> Seq<char>
    decreases e, 0int,
{
    match e {
        ElementView::Intrinsic { props, children, tag, .. } => "<"@ + tag + props_text(props)
            + ">"@ + option_children_html(children) + "</"@ + tag + ">"@,
        ElementView::Virtual { children, .. } => option_children_html(children),
    }
}

/// The HTML of the children of a node, empty where it has none.
pub open spec fn option_children_html(c: Option<ChildrenView>) -> Seq<char>
    decreases c, 0int,
{
    match c {
        Some(c) => children_html(c),
        None => Seq::empty(),
    }
}

/// The HTML of children: a text as it is, a node as its HTML, a list as the
/// HTML of its members one after the other.
pub open spec fn children_html(c: ChildrenView) -> Seq<char>
    decreases c, 0int,
{
    match c {
        ChildrenView::Elements(list) => list_html(list, list.len() as int),
        ChildrenView::Element(e) => element_html(*e),
        ChildrenView::Text(t) => t,
    }
}

/// The HTML of the first `n` members of a list of children.
pub open spec fn list_html(list: Seq<ChildrenView>, n: int) -> Seq<char>
    decreases list, n,
{
    if 0 < n <= list.len() {
        list_html(list, n - 1) + children_html(list[n - 1])
    } else {
        Seq::empty()
    }
}

/// The children with every virtual node replaced by its own children: what
/// is left of a tree when the component boundaries are taken out.
pub open spec fn without_virtual(c: ChildrenView) -> ChildrenView
    decreases c,
{
    match c {
        ChildrenView::Elements(list) => ChildrenView::Elements(
            Seq::new(
                list.len(),
                |i: int|
                    if 0 <= i < list.len() {
                        without_virtual(list[i])
                    } else {
                        ChildrenView::Text(Seq::empty())
                    },
            ),
        ),
        ChildrenView::Element(e) => match *e {
            ElementView::Intrinsic { props, children, scope, tag } => ChildrenView::Element(
                Box::new(
                    ElementView::Intrinsic {
                        props,
                        children: match children {
                            Some(k) => Some(without_virtual(k)),
                            None => None,
                        },
                        scope,
                        tag,
                    },
                ),
            ),
            ElementView::Virtual { children, .. } => match children {
                Some(k) => without_virtual(k),
                None => ChildrenView::Elements(Seq::empty()),
            },
        },
        ChildrenView::Text(t) => ChildrenView::Text(t),
    }
}

/// No node among the children, at any depth, is virtual.
pub open spec fn free_of_virtual(c: ChildrenView) -> bool
    decreases c, 0int,
{
    match c {
        ChildrenView::Elements(list) => list_free_of_virtual(list, list.len() as int),
        ChildrenView::Element(e) => match *e {
            ElementView::Intrinsic { children, .. } => match children {
                Some(k) => free_of_virtual(k),
                None => true,
            },
            ElementView::Virtual { .. } => false,
        },
        ChildrenView::Text(_) => true,
    }
}

/// No node among the first `n` members of the list, at any depth, is virtual.
pub open spec fn list_free_of_virtual(list: Seq<ChildrenView>, n: int) -> bool
    decreases list, n,
{
    if 0 < n <= list.len() {
        list_free_of_virtual(list, n - 1) && free_of_virtual(list[n - 1])
    } else {
        true
    }
}

/// A virtual node renders as its children and nothing more.
pub proof fn lemma_virtual_renders_children(e: ElementView)
    requires
        e is Virtual,
    ensures
        element_html(e) == option_children_html(e->Virtual_children),
{
}

/// Virtual nodes leave no trace in the HTML: a tree renders as the tree
/// without its virtual nodes does, in which the children of every virtual
/// node stand in its place and in their order.
pub proof fn lemma_virtual_transparent(c: ChildrenView)
    ensures
        children_html(without_virtual(c)) == children_html(c),
        free_of_virtual(without_virtual(c)),
    decreases c, 1int,
{
    reveal_with_fuel(children_html, 2);
    reveal_with_fuel(element_html, 2);
    reveal_with_fuel(option_children_html, 2);
    reveal_with_fuel(free_of_virtual, 2);
    match c {
        ChildrenView::Elements(list) => {
            lemma_list_virtual_transparent(list, list.len() as int);
        },
        ChildrenView::Element(e) => match *e {
            ElementView::Intrinsic { props, children, scope, tag } => {
                match children {
                    Some(k) => {
                        lemma_virtual_transparent(k);
                    },
                    None => {},
                }
            },
            ElementView::Virtual { children, .. } => {
                match children {
                    Some(k) => {
                        lemma_virtual_transparent(k);
                    },
                    None => {},
                }
            },
        },
        ChildrenView::Text(_) => {},
    }
}

/// `lemma_virtual_transparent` for the first `n` members of a list.
pub proof fn lemma_list_virtual_transparent(list: Seq<ChildrenView>, n: int)
    requires
        0 <= n <= list.len(),
    ensures
        list_html(without_virtual(ChildrenView::Elements(list))->Elements_0, n) == list_html(
            list,
            n,
        ),
        list_free_of_virtual(without_virtual(ChildrenView::Elements(list))->Elements_0, n),
    decreases list, n,
{
    if n > 0 {
        lemma_list_virtual_transparent(list, n - 1);
        lemma_virtual_transparent(list[n - 1]);
    }
}

} // verus!
