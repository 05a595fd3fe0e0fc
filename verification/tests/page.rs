use std::convert::Infallible;

use areum::dom::arena::ArenaElement;
use areum::page::find_page;
use areum::dom::boxed::BoxedElement;
use areum::dom::Children;
use areum::dom::PropTypeError;
use areum::dom::Props;
use areum::page::scope_class_of;
use areum::page::Page;
use areum::page::PageProps;
use areum::page::RenderError;
use areum::page::StyleCountError;
use areum::page::StyleSource;
use areum::selector::scope_selector;
use areum::selector::LogicalKind;
use areum::selector::Part;
use areum::value::Value;
use lightningcss::css_modules;
use lightningcss::selector::Component;
use lightningcss::selector::PseudoClass;
use lightningcss::selector::Selector;
use lightningcss::stylesheet::ParserFlags;
use lightningcss::stylesheet::ParserOptions;
use lightningcss::stylesheet::PrinterOptions;
use lightningcss::stylesheet::StyleSheet;
use lightningcss::visitor::Visit;
use lightningcss::visitor::VisitTypes;
use lightningcss::visitor::Visitor;

fn list_of<'i>(list: &[Selector<'i>]) -> Vec<Vec<Part<Component<'i>>>> {
    list.iter().map(|s| parts_of(s)).collect()
}

fn part_of<'i>(component: &Component<'i>) -> Part<Component<'i>> {
    let none: Box<[Selector<'i>]> = Vec::new().into_boxed_slice();
    match component {
        Component::NonTSPseudoClass(PseudoClass::Global { selector }) => Part::Global(parts_of(selector)),
        Component::Is(list) => {
            Part::Logical { kind: LogicalKind::Is, head: Component::Is(none), selectors: list_of(list) }
        }
        Component::Where(list) => {
            Part::Logical { kind: LogicalKind::Where, head: Component::Where(none), selectors: list_of(list) }
        }
        Component::Negation(list) => {
            Part::Logical { kind: LogicalKind::Not, head: Component::Negation(none), selectors: list_of(list) }
        }
        Component::Has(list) => {
            Part::Logical { kind: LogicalKind::Has, head: Component::Has(none), selectors: list_of(list) }
        }
        other => Part::Other(other.clone()),
    }
}

fn parts_of<'i>(selector: &Selector<'i>) -> Vec<Part<Component<'i>>> {
    let mut compounds = Vec::new();
    let mut combinators = Vec::new();
    let mut it = selector.iter();
    loop {
        let mut compound = Vec::new();
        while let Some(component) = it.next() {
            compound.push(part_of(component));
        }
        compounds.push(compound);
        match it.next_sequence() {
            Some(combinator) => combinators.push(combinator),
            None => break,
        }
    }
    let mut parts = Vec::new();
    while let Some(compound) = compounds.pop() {
        parts.extend(compound);
        if let Some(combinator) = combinators.pop() {
            parts.push(Part::Combinator(Component::Combinator(combinator)));
        }
    }
    parts
}

fn selector_of<'i>(parts: Vec<Part<Component<'i>>>) -> Selector<'i> {
    let mut components = Vec::new();
    for part in parts {
        components.push(match part {
            Part::Combinator(c) => c,
            Part::Other(c) => c,
            Part::Class(name) => Component::Class(name.into()),
            Part::Global(inner) => {
                Component::NonTSPseudoClass(PseudoClass::Global { selector: Box::new(selector_of(inner)) })
            }
            Part::Logical { head, selectors, .. } => {
                let list: Box<[Selector<'i>]> =
                    selectors.into_iter().map(selector_of).collect::<Vec<_>>().into_boxed_slice();
                match head {
                    Component::Is(_) => Component::Is(list),
                    Component::Where(_) => Component::Where(list),
                    Component::Negation(_) => Component::Negation(list),
                    _ => Component::Has(list),
                }
            }
        });
    }
    Selector::from(components)
}

struct Scoper {
    class: String,
}

impl<'i> Visitor<'i> for Scoper {
    type Error = Infallible;

    fn visit_types(&self) -> VisitTypes {
        VisitTypes::SELECTORS
    }

    fn visit_selector(&mut self, selector: &mut Selector<'i>) -> Result<(), Self::Error> {
        let scoped = scope_selector(parts_of(selector), &self.class);
        *selector = selector_of(scoped);
        Ok(())
    }
}

fn rewrite(css: &str, class: &str) -> String {
    let mut sheet = StyleSheet::parse(
        css,
        ParserOptions {
            flags: ParserFlags::NESTING,
            css_modules: Some(css_modules::Config {
                pattern: css_modules::Pattern { segments: vec![css_modules::Segment::Local].into() },
                dashed_idents: false,
                ..Default::default()
            }),
            ..Default::default()
        },
    )
    .unwrap();
    sheet.visit(&mut Scoper { class: class.to_string() }).unwrap();
    sheet.to_css(PrinterOptions { minify: true, ..Default::default() }).unwrap().code
}

fn rewrite_all(sources: &[StyleSource]) -> Vec<String> {
    sources.iter().map(|s| rewrite(&s.css, &s.scope)).collect()
}

fn text(s: &str) -> Value {
    Value::String(s.to_string())
}

fn props_of(entries: Vec<(&str, Value)>) -> Props {
    let mut props = Props::new();
    for (key, value) in entries {
        props.set(key.to_string(), value);
    }
    props
}

fn intrinsic(tag: &str, scope: &str, props: Props, children: Vec<Children<BoxedElement>>) -> BoxedElement {
    BoxedElement::Intrinsic {
        props,
        children: Some(Box::new(Children::Elements(children))),
        scope: scope.to_string(),
        tag: tag.to_string(),
    }
}

fn virtual_node(scope: &str, style: Option<&str>, children: Vec<Children<BoxedElement>>) -> BoxedElement {
    BoxedElement::Virtual {
        props: Props::new(),
        children: Some(Box::new(Children::Elements(children))),
        scope: scope.to_string(),
        style: style.map(|s| s.to_string()),
    }
}

fn page_of(tree: &BoxedElement) -> Page {
    Page::new("file:///site/index.jsx".to_string(), "".to_string(), tree, "run()".to_string())
}

fn nested_components() -> BoxedElement {
    intrinsic(
        "div",
        "a",
        Props::new(),
        vec![Children::Element(virtual_node(
            "b",
            Some(".x{color:red}"),
            vec![Children::Element(intrinsic("span", "b", props_of(vec![("class", text("x"))]), vec![]))],
        ))],
    )
}

#[test]
fn css_rewriting_scopes_every_compound() {
    assert_eq!(rewrite(".x { color: red }", "sb"), ".x.sb{color:red}");
    assert_eq!(rewrite("ul > li a { color: red }", "s1"), "ul.s1>li.s1 a.s1{color:red}");
    assert_eq!(rewrite(":global(.dark) .x { color: red }", "s1"), ".dark .x.s1{color:red}");
    assert_eq!(rewrite(":global(body) { margin: 0 }", "s1"), "body{margin:0}");
    assert_eq!(rewrite(":is(.a,.b){color:red}", "s1"), ":is(.a.s1,.b.s1){color:red}");
    assert_eq!(rewrite("div:is(.a,.b){color:red}", "s1"), "div:is(.a.s1,.b.s1).s1{color:red}");
}

#[test]
fn new_page() {
    let page = page_of(&nested_components());
    assert_eq!(page.id(), "rxZ8NE3B");
    assert_eq!(page.url, "file:///site/index.jsx");
    assert_eq!(page.path, "");
    assert_eq!(page.script, "run()");
    assert_eq!(page.style, "");
    assert!(page.scopes.is_empty());
    assert_eq!(page.dom.index(), 0);
    assert_eq!(page.arena.len(), 3);
}

#[test]
fn page_props() {
    assert_eq!(
        PageProps::new("blog/a".to_string(), "0.1.0"),
        PageProps { path: "blog/a".to_string(), generator: "Areum 0.1.0".to_string() }
    );
}

#[test]
fn scope_classes() {
    assert_eq!(scope_class_of("abc"), "sabc");
    assert_eq!(scope_class_of(""), "s");
}

#[test]
fn component_styles_are_scoped_end_to_end() {
    let mut page = page_of(&nested_components());
    let pending = page.pending_styles(page.dom);
    assert_eq!(pending, vec![StyleSource { scope: "sb".to_string(), css: ".x{color:red}".to_string() }]);
    let html = page.render_to_string(&rewrite_all(&pending)).unwrap();
    assert_eq!(html, "<!DOCTYPE html><div class=\"sa\"><span class=\"x sb\"></span></div>");
    assert!(html.contains("<div class=\"sa\">"));
    assert!(html.contains("<span class=\"x sb\">"));
    assert_eq!(page.style, ".x.sb{color:red}");
    assert_eq!(page.scopes, vec!["sb".to_string()]);
}

#[test]
fn scopes_are_assigned_to_intrinsic_nodes_only() {
    let mut page = page_of(&nested_components());
    assert_eq!(page.process_scopes(page.dom), Ok(()));
    assert_eq!(page.arena.render(page.dom), "<div class=\"sa\"><span class=\"x sb\"></span></div>");
    match page.arena.index(page.dom) {
        ArenaElement::Intrinsic { children: Some(Children::Elements(list)), .. } => match &list[0] {
            Children::Element(id) => {
                assert_eq!(page.arena.index(*id).props().get("class"), None);
            }
            _ => panic!("a node"),
        },
        _ => panic!("an intrinsic node with children"),
    }
}

#[test]
fn scopes_are_assigned_below_the_given_node_only() {
    let tree = intrinsic(
        "div",
        "a",
        Props::new(),
        vec![
            Children::Element(intrinsic("p", "b", Props::new(), vec![Children::Element(intrinsic("i", "c", Props::new(), vec![]))])),
            Children::Element(intrinsic("q", "d", Props::new(), vec![])),
        ],
    );
    let mut page = page_of(&tree);
    let first = match page.arena.index(page.dom).children() {
        Some(Children::Elements(list)) => match &list[0] {
            Children::Element(id) => *id,
            _ => panic!("a node"),
        },
        _ => panic!("children"),
    };
    assert_eq!(page.process_scopes(first), Ok(()));
    assert_eq!(page.arena.render(page.dom), "<div><p class=\"sb\"><i class=\"sc\"></i></p><q></q></div>");
}

#[test]
fn class_that_is_no_string_stops_scope_assignment() {
    let tree = intrinsic(
        "div",
        "a",
        Props::new(),
        vec![
            Children::Element(intrinsic("p", "b", props_of(vec![("class", Value::Number("1".to_string()))]), vec![])),
            Children::Element(intrinsic("q", "c", Props::new(), vec![])),
        ],
    );
    let mut page = page_of(&tree);
    let expected = PropTypeError { key: "class".to_string(), val: "sb".to_string() };
    assert_eq!(page.process_scopes(page.dom), Err(expected));
    assert_eq!(page.arena.render(page.dom), "<div class=\"sa\"><p class=\"1\"></p><q></q></div>");
    let mut again = page_of(&tree);
    assert_eq!(
        again.render_to_string(&vec![]),
        Err(RenderError::PropType(PropTypeError { key: "class".to_string(), val: "sb".to_string() }))
    );
}

fn twice() -> BoxedElement {
    intrinsic(
        "main",
        "root",
        Props::new(),
        vec![
            Children::Element(virtual_node("card", Some(".card{margin:0}"), vec![Children::Text("1".to_string())])),
            Children::Element(virtual_node("plain", None, vec![])),
            Children::Element(virtual_node("note", Some(".note{color:red}"), vec![])),
            Children::Element(virtual_node("card", Some(".card{margin:0}"), vec![Children::Text("2".to_string())])),
        ],
    )
}

#[test]
fn shared_scope_contributes_once() {
    let mut page = page_of(&twice());
    let pending = page.pending_styles(page.dom);
    assert_eq!(
        pending,
        vec![
            StyleSource { scope: "scard".to_string(), css: ".card{margin:0}".to_string() },
            StyleSource { scope: "snote".to_string(), css: ".note{color:red}".to_string() },
        ]
    );
    assert_eq!(page.process_styles(page.dom, &rewrite_all(&pending)), Ok(()));
    assert_eq!(page.style, ".card.scard{margin:0}.note.snote{color:red}");
    assert_eq!(page.style.matches(".card.scard").count(), 1);
    assert_eq!(page.scopes, vec!["scard".to_string(), "snote".to_string()]);
}

#[test]
fn collecting_twice_appends_nothing() {
    let mut page = page_of(&twice());
    let pending = page.pending_styles(page.dom);
    page.process_styles(page.dom, &rewrite_all(&pending)).unwrap();
    let style = page.style.clone();
    assert_eq!(page.pending_styles(page.dom), vec![]);
    assert_eq!(page.process_styles(page.dom, &vec![]), Ok(()));
    assert_eq!(page.style, style);
    assert_eq!(page.scopes.len(), 2);
}

#[test]
fn flushed_scope_is_not_pending() {
    let mut page = page_of(&twice());
    page.scopes.push("scard".to_string());
    assert_eq!(
        page.pending_styles(page.dom),
        vec![StyleSource { scope: "snote".to_string(), css: ".note{color:red}".to_string() }]
    );
}

#[test]
fn wrong_number_of_style_sheets_is_refused() {
    let mut page = page_of(&twice());
    assert_eq!(
        page.process_styles(page.dom, &vec!["a".to_string()]),
        Err(StyleCountError { expected: 2, found: 1 })
    );
    assert_eq!(page.style, "");
    assert!(page.scopes.is_empty());
    assert_eq!(
        page.render_to_string(&vec![]),
        Err(RenderError::Styles(StyleCountError { expected: 2, found: 0 }))
    );
}

#[test]
fn style_and_script_are_injected() {
    let tree = intrinsic(
        "html",
        "a",
        Props::new(),
        vec![
            Children::Element(intrinsic("head", "a", Props::new(), vec![Children::Element(intrinsic("title", "a", Props::new(), vec![Children::Text("t".to_string())]))])),
            Children::Element(intrinsic(
                "body",
                "a",
                Props::new(),
                vec![Children::Element(virtual_node("b", Some("p{margin:0}"), vec![Children::Element(intrinsic("p", "b", Props::new(), vec![Children::Text("hi".to_string())]))]))],
            )),
        ],
    );
    let mut page = page_of(&tree);
    let pending = page.pending_styles(page.dom);
    let html = page.render_to_string(&rewrite_all(&pending)).unwrap();
    assert_eq!(
        html,
        "<!DOCTYPE html><html class=\"sa\"><head class=\"sa\"><title class=\"sa\">t</title><style>p.sb{margin:0}</style></head><body class=\"sa\"><p class=\"sb\">hi</p><script type=\"module\">run()</script></body></html>"
    );
}

#[test]
fn document_without_head_and_body_is_left_alone() {
    let mut page = page_of(&intrinsic("p", "a", Props::new(), vec![Children::Text("x".to_string())]));
    assert_eq!(page.render_to_string(&vec![]), Ok("<!DOCTYPE html><p class=\"sa\">x</p>".to_string()));
}

#[test]
fn page_of_a_generator_is_found_by_its_path() {
    let tree = intrinsic("p", "a", Props::new(), vec![]);
    let at = |path: &str| Page::new("file:///site/_.tsx".to_string(), path.to_string(), &tree, String::new());
    let pages = vec![at("blog/a"), at("blog/b"), at("blog/a")];
    assert_eq!(find_page(&pages, "blog/b"), Some(1));
    assert_eq!(find_page(&pages, "blog/a"), Some(0));
    assert_eq!(find_page(&pages, "blog/c"), None);
    assert_eq!(find_page(&Vec::new(), "blog/a"), None);
}

#[test]
fn document_that_cannot_be_rewritten_is_reported() {
    let tree = intrinsic(
        "select",
        "a",
        Props::new(),
        vec![Children::Element(intrinsic("xmp", "a", Props::new(), vec![]))],
    );
    let mut page = page_of(&tree);
    match page.render_to_string(&vec![]) {
        Err(RenderError::Rewrite(text)) => assert!(text.contains("`<xmp>`")),
        other => panic!("{:?}", other),
    }
}

#[test]
fn same_source_renders_the_same_whoever_asks() {
    let tree = nested_components();
    let mut built = page_of(&tree);
    let mut served = page_of(&tree);
    let pending = built.pending_styles(built.dom);
    assert_eq!(pending, served.pending_styles(served.dom));
    let rewritten = rewrite_all(&pending);
    assert_eq!(built.render_to_string(&rewritten), served.render_to_string(&rewritten));
}

#[test]
fn only_the_script_tells_two_renderings_apart() {
    let tree = intrinsic("body", "a", Props::new(), vec![]);
    let render = |script: &str| {
        let mut page = Page::new("file:///site/index.jsx".to_string(), "".to_string(), &tree, script.to_string());
        page.render_to_string(&vec![]).unwrap()
    };
    assert_eq!(render("one()"), "<!DOCTYPE html><body class=\"sa\"><script type=\"module\">one()</script></body>");
    assert_eq!(render("two()"), render("one()").replace("one()", "two()"));
}

#[test]
fn element_renders_as_its_arena_does() {
    let page = page_of(&nested_components());
    assert_eq!(page.arena.index(page.dom).to_string(&page.arena), page.arena.render(page.dom));
}
