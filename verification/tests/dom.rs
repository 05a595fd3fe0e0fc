use areum::dom::arena::Arena;
use areum::dom::arena::ArenaElement;
use areum::dom::boxed::children_from_value;
use areum::dom::boxed::BoxedElement;
use areum::dom::boxed::TreeShapeError;
use areum::dom::prop_to_string;
use areum::dom::Children;
use areum::dom::PropTypeError;
use areum::dom::Props;
use areum::value::Value;

fn text(s: &str) -> Value {
    Value::String(s.to_string())
}

fn props_of(entries: Vec<(&str, Value)>) -> Props {
    let mut props = Props::new();
    for (key, value) in entries {
        props.set(key.to_string(), value);
    }
    props
}

fn intrinsic(tag: &str, scope: &str, props: Props, children: Option<Children<BoxedElement>>) -> BoxedElement {
    BoxedElement::Intrinsic {
        props,
        children: children.map(Box::new),
        scope: scope.to_string(),
        tag: tag.to_string(),
    }
}

fn virtual_node(scope: &str, style: Option<&str>, children: Option<Children<BoxedElement>>) -> BoxedElement {
    BoxedElement::Virtual {
        props: Props::new(),
        children: children.map(Box::new),
        scope: scope.to_string(),
        style: style.map(|s| s.to_string()),
    }
}

fn object(fields: Vec<(&str, Value)>) -> Value {
    Value::Object(fields.into_iter().map(|(k, v)| (k.to_string(), v)).collect())
}

fn render(boxed: &BoxedElement) -> String {
    let mut arena = Arena::new();
    let id = ArenaElement::from_boxed(&mut arena, boxed, None);
    arena.index(id).to_string(&arena)
}

#[test]
fn props_set_then_get() {
    let mut props = Props::new();
    assert_eq!(props.set("id".to_string(), text("main")), None);
    assert_eq!(props.get("id"), Some(&text("main")));
    assert_eq!(props.get("class"), None);
    assert_eq!(props.len(), 1);
}

#[test]
fn props_set_replaces_and_returns_previous() {
    let mut props = props_of(vec![("id", text("a")), ("n", Value::Number("1".to_string()))]);
    assert_eq!(props.set("id".to_string(), text("b")), Some(text("a")));
    assert_eq!(props.get("id"), Some(&text("b")));
    assert_eq!(props.len(), 2);
    assert_eq!(props.to_string(), " id=\"b\" n=\"1\"");
}

#[test]
fn props_remove_takes_the_entry_out() {
    let mut props = props_of(vec![("a", text("1")), ("b", text("2")), ("c", text("3"))]);
    assert_eq!(props.remove("b"), Some(text("2")));
    assert_eq!(props.remove("b"), None);
    assert_eq!(props.to_string(), " a=\"1\" c=\"3\"");
}

#[test]
fn props_get_mut_changes_in_place() {
    let mut props = props_of(vec![("a", text("1"))]);
    match props.get_mut("a") {
        Some(value) => *value = Value::Bool(true),
        None => panic!("the prop is there"),
    }
    assert_eq!(props.get("a"), Some(&Value::Bool(true)));
    assert!(props.get_mut("b").is_none());
}

#[test]
fn append_sets_an_absent_prop() {
    let mut props = Props::new();
    assert_eq!(props.append_string_space_separated("class".to_string(), "sa".to_string()), Ok(()));
    assert_eq!(props.get("class"), Some(&text("sa")));
}

#[test]
fn append_joins_with_one_space() {
    let mut props = props_of(vec![("class", text("x"))]);
    assert_eq!(props.append_string_space_separated("class".to_string(), "sb".to_string()), Ok(()));
    assert_eq!(props.get("class"), Some(&text("x sb")));
}

#[test]
fn append_to_an_empty_string_keeps_the_space() {
    let mut props = props_of(vec![("class", text(""))]);
    assert_eq!(props.append_string_space_separated("class".to_string(), "sb".to_string()), Ok(()));
    assert_eq!(props.get("class"), Some(&text(" sb")));
}

#[test]
fn append_to_a_number_is_refused() {
    let mut props = props_of(vec![("class", Value::Number("3".to_string()))]);
    let result = props.append_string_space_separated("class".to_string(), "sb".to_string());
    assert_eq!(result, Err(PropTypeError { key: "class".to_string(), val: "sb".to_string() }));
    assert_eq!(props.get("class"), Some(&Value::Number("3".to_string())));
}

#[test]
fn prop_texts_by_kind() {
    assert_eq!(prop_to_string("hidden", &Value::Bool(true)), "hidden");
    assert_eq!(prop_to_string("hidden", &Value::Bool(false)), "");
    assert_eq!(prop_to_string("x", &Value::Null), "");
    assert_eq!(prop_to_string("width", &Value::Number("12.5".to_string())), "width=\"12.5\"");
    assert_eq!(prop_to_string("id", &text("main")), "id=\"main\"");
    assert_eq!(prop_to_string("items", &Value::Array(vec![Value::Null])), "items=\"[Array]\"");
    assert_eq!(prop_to_string("style", &object(vec![])), "style[Object]\"");
}

#[test]
fn props_text_is_empty_without_props() {
    assert_eq!(Props::new().to_string(), "");
}

#[test]
fn props_text_of_one_silent_prop_is_empty() {
    assert_eq!(props_of(vec![("a", Value::Bool(false))]).to_string(), "");
}

#[test]
fn props_text_keeps_the_space_of_a_silent_prop() {
    let props = props_of(vec![("a", Value::Bool(false)), ("b", Value::Bool(true))]);
    assert_eq!(props.to_string(), "  b");
}

#[test]
fn from_boxed_pushes_parent_first() {
    let tree = intrinsic(
        "div",
        "a",
        Props::new(),
        Some(Children::Elements(vec![
            Children::Element(intrinsic("p", "a", Props::new(), Some(Children::Text("x".to_string())))),
            Children::Element(intrinsic("i", "a", Props::new(), None)),
        ])),
    );
    let mut arena = Arena::new();
    let root = ArenaElement::from_boxed(&mut arena, &tree, None);
    assert_eq!(root.index(), 0);
    assert_eq!(arena.len(), 3);
    assert_eq!(arena.subtree_end(root), 3);
    match arena.index(root) {
        ArenaElement::Intrinsic { tag, children, .. } => {
            assert_eq!(tag, "div");
            match children {
                Some(Children::Elements(list)) => {
                    assert_eq!(list.len(), 2);
                    match (&list[0], &list[1]) {
                        (Children::Element(first), Children::Element(second)) => {
                            assert_eq!(first.index(), 1);
                            assert_eq!(second.index(), 2);
                            assert_eq!(arena.subtree_end(*first), 2);
                        }
                        _ => panic!("two nodes"),
                    }
                }
                _ => panic!("a list"),
            }
        }
        _ => panic!("an intrinsic node"),
    }
}

#[test]
fn from_boxed_appends_behind_what_is_there() {
    let mut arena = Arena::new();
    let first = ArenaElement::from_boxed(&mut arena, &intrinsic("a", "s", Props::new(), None), None);
    let second = ArenaElement::from_boxed(&mut arena, &intrinsic("b", "s", Props::new(), None), None);
    assert_eq!(first.index(), 0);
    assert_eq!(second.index(), 1);
    assert!(arena.contains(second));
    assert_eq!(arena.render(first), "<a></a>");
    assert_eq!(arena.render(second), "<b></b>");
}

#[test]
fn intrinsic_node_renders_as_an_element() {
    let tree = intrinsic(
        "a",
        "s",
        props_of(vec![("href", text("/x")), ("download", Value::Bool(true))]),
        Some(Children::Text("go".to_string())),
    );
    assert_eq!(render(&tree), "<a href=\"/x\" download>go</a>");
}

#[test]
fn node_without_children_renders_empty() {
    assert_eq!(render(&intrinsic("br", "s", Props::new(), None)), "<br></br>");
    assert_eq!(render(&virtual_node("s", None, None)), "");
}

#[test]
fn virtual_node_renders_as_its_children_only() {
    let tree = intrinsic(
        "ul",
        "a",
        Props::new(),
        Some(Children::Elements(vec![
            Children::Text("1".to_string()),
            Children::Element(virtual_node(
                "b",
                Some(".x{}"),
                Some(Children::Elements(vec![
                    Children::Element(intrinsic("li", "b", Props::new(), Some(Children::Text("2".to_string())))),
                    Children::Text("3".to_string()),
                ])),
            )),
            Children::Text("4".to_string()),
        ])),
    );
    assert_eq!(render(&tree), "<ul>1<li>2</li>34</ul>");
}

#[test]
fn virtual_root_leaves_no_tag() {
    let with = virtual_node("v", None, Some(Children::Element(intrinsic("p", "v", Props::new(), None))));
    let without = intrinsic("p", "v", Props::new(), None);
    assert_eq!(render(&with), render(&without));
}

#[test]
fn accessors_of_a_boxed_node() {
    let tree = virtual_node("scope", Some("css"), Some(Children::Text("t".to_string())));
    assert_eq!(tree.scope(), "scope");
    assert_eq!(tree.props().len(), 0);
    assert_eq!(tree.children(), Some(&Children::Text("t".to_string())));
}

#[test]
fn accessors_of_an_arena_node() {
    let mut arena = Arena::new();
    let id = ArenaElement::from_boxed(
        &mut arena,
        &intrinsic("p", "k", props_of(vec![("id", text("x"))]), Some(Children::Text("t".to_string()))),
        None,
    );
    let node = arena.index(id);
    assert_eq!(node.scope(), "k");
    assert_eq!(node.props().get("id"), Some(&text("x")));
    assert_eq!(node.children(), Some(&Children::Text("t".to_string())));
    arena.props_mut(id).set("id".to_string(), text("y"));
    assert_eq!(arena.render(id), "<p id=\"y\">t</p>");
}

#[test]
fn value_describes_an_intrinsic_node() {
    let value = object(vec![
        ("kind", text("intrinsic")),
        ("tag", text("div")),
        ("scope", text("a")),
        ("props", object(vec![("id", text("x"))])),
        ("children", Value::Array(vec![
            text("hi"),
            object(vec![
                ("kind", text("virtual")),
                ("scope", text("b")),
                ("props", object(vec![])),
                ("style", text(".x{}")),
                ("children", Value::Null),
            ]),
        ])),
    ]);
    let tree = BoxedElement::from_value(&value).unwrap();
    let expected = intrinsic(
        "div",
        "a",
        props_of(vec![("id", text("x"))]),
        Some(Children::Elements(vec![
            Children::Text("hi".to_string()),
            Children::Element(virtual_node("b", Some(".x{}"), None)),
        ])),
    );
    assert_eq!(tree, expected);
}

#[test]
fn value_with_unknown_kind_is_refused() {
    let value = object(vec![("kind", text("portal")), ("scope", text("a")), ("props", object(vec![]))]);
    assert_eq!(BoxedElement::from_value(&value), Err(TreeShapeError::UnknownKind));
    assert_eq!(BoxedElement::from_value(&text("div")), Err(TreeShapeError::UnknownKind));
    assert_eq!(BoxedElement::from_value(&object(vec![])), Err(TreeShapeError::UnknownKind));
}

#[test]
fn value_without_a_needed_field_is_refused() {
    let no_props = object(vec![("kind", text("virtual")), ("scope", text("a"))]);
    assert_eq!(BoxedElement::from_value(&no_props), Err(TreeShapeError::MissingField));
    let no_scope = object(vec![("kind", text("virtual")), ("props", object(vec![]))]);
    assert_eq!(BoxedElement::from_value(&no_scope), Err(TreeShapeError::MissingField));
    let no_tag = object(vec![("kind", text("intrinsic")), ("props", object(vec![])), ("scope", text("a"))]);
    assert_eq!(BoxedElement::from_value(&no_tag), Err(TreeShapeError::MissingField));
    let bad_style = object(vec![
        ("kind", text("virtual")),
        ("props", object(vec![])),
        ("scope", text("a")),
        ("style", Value::Bool(true)),
    ]);
    assert_eq!(BoxedElement::from_value(&bad_style), Err(TreeShapeError::MissingField));
}

#[test]
fn value_with_bad_children_is_refused() {
    let value = object(vec![
        ("kind", text("virtual")),
        ("props", object(vec![])),
        ("scope", text("a")),
        ("children", Value::Number("1".to_string())),
    ]);
    assert_eq!(BoxedElement::from_value(&value), Err(TreeShapeError::BadChildren));
    assert_eq!(
        children_from_value(&Value::Array(vec![text("a"), Value::Bool(true)])),
        Err(TreeShapeError::BadChildren)
    );
    assert_eq!(
        children_from_value(&object(vec![("kind", text("portal"))])),
        Err(TreeShapeError::BadChildren)
    );
}

#[test]
fn children_keep_their_nesting() {
    let value = Value::Array(vec![Value::Array(vec![text("a")]), text("b")]);
    assert_eq!(
        children_from_value(&value),
        Ok(Children::Elements(vec![
            Children::Elements(vec![Children::Text("a".to_string())]),
            Children::Text("b".to_string()),
        ]))
    );
}

#[test]
fn value_field_and_clone() {
    let value = object(vec![("a", text("1")), ("a", text("2")), ("b", Value::Array(vec![Value::Null]))]);
    assert_eq!(value.field("a"), Some(&text("1")));
    assert_eq!(value.field("c"), None);
    assert_eq!(text("x").field("a"), None);
    assert_eq!(text("x").as_str(), Some("x"));
    assert_eq!(Value::Null.as_str(), None);
    assert_eq!(value.clone(), value);
}
