use areum::selector::scope_selector;
use areum::selector::scope_selectors;
use areum::selector::LogicalKind;
use areum::selector::Part;

fn other(s: &'static str) -> Part<&'static str> {
    Part::Other(s)
}

fn class(s: &str) -> Part<&'static str> {
    Part::Class(s.to_string())
}

fn comb(s: &'static str) -> Part<&'static str> {
    Part::Combinator(s)
}

#[test]
fn one_compound_gets_the_class_at_its_end() {
    assert_eq!(scope_selector(vec![other(".x")], "sb"), vec![other(".x"), class("sb")]);
    assert_eq!(
        scope_selector(vec![other("div"), other("#a"), class("x")], "sb"),
        vec![other("div"), other("#a"), class("x"), class("sb")]
    );
}

#[test]
fn empty_selector_gets_the_class() {
    assert_eq!(scope_selector(Vec::<Part<&'static str>>::new(), "sb"), vec![class("sb")]);
}

#[test]
fn every_compound_gets_the_class_and_combinators_stay() {
    let selector = vec![other("ul"), comb(">"), other("li"), comb(" "), other("a"), other(":hover")];
    assert_eq!(
        scope_selector(selector, "s1"),
        vec![
            other("ul"),
            class("s1"),
            comb(">"),
            other("li"),
            class("s1"),
            comb(" "),
            other("a"),
            other(":hover"),
            class("s1"),
        ]
    );
}

#[test]
fn global_escape_gives_way_to_its_selector() {
    let selector = vec![Part::Global(vec![other(".a"), comb(" "), other(".b")])];
    assert_eq!(scope_selector(selector, "s1"), vec![other(".a"), comb(" "), other(".b")]);
}

#[test]
fn compounds_beside_a_global_escape_are_scoped() {
    let selector = vec![other(".x"), comb(" "), Part::Global(vec![other(".a")]), comb(">"), other(".y")];
    assert_eq!(
        scope_selector(selector, "s1"),
        vec![other(".x"), class("s1"), comb(" "), other(".a"), comb(">"), other(".y"), class("s1")]
    );
}

#[test]
fn compound_with_a_global_escape_gets_no_class() {
    let selector = vec![other(".x"), Part::Global(vec![other(".a")]), other(".y")];
    assert_eq!(scope_selector(selector, "s1"), vec![other(".x"), other(".a"), other(".y")]);
}

#[test]
fn global_escape_is_spliced_one_level_only() {
    let inner = vec![Part::Global(vec![other(".a")])];
    let selector = vec![Part::Global(copy(&inner))];
    assert_eq!(scope_selector(selector, "s1"), inner);
}

fn copy(parts: &[Part<&'static str>]) -> Vec<Part<&'static str>> {
    parts
        .iter()
        .map(|part| match part {
            Part::Combinator(c) => Part::Combinator(*c),
            Part::Global(inner) => Part::Global(copy(inner)),
            Part::Logical { kind, head, selectors } => Part::Logical {
                kind: *kind,
                head: *head,
                selectors: selectors.iter().map(|s| copy(s)).collect(),
            },
            Part::Class(name) => Part::Class(name.clone()),
            Part::Other(t) => Part::Other(*t),
        })
        .collect()
}

#[test]
fn selectors_inside_a_list_are_scoped_too() {
    let selector = vec![
        other("div"),
        Part::Logical {
            kind: LogicalKind::Is,
            head: ":is",
            selectors: vec![vec![other(".a")], vec![other(".b"), comb(" "), other(".c")]],
        },
    ];
    assert_eq!(
        scope_selector(selector, "s1"),
        vec![
            other("div"),
            Part::Logical {
                kind: LogicalKind::Is,
                head: ":is",
                selectors: vec![
                    vec![other(".a"), class("s1")],
                    vec![other(".b"), class("s1"), comb(" "), other(".c"), class("s1")],
                ],
            },
            class("s1"),
        ]
    );
}

#[test]
fn compound_of_lists_alone_gets_no_class() {
    let selector = vec![Part::Logical {
        kind: LogicalKind::Is,
        head: ":is",
        selectors: vec![vec![other(".a")], vec![other(".b")]],
    }];
    assert_eq!(
        scope_selector(selector, "s1"),
        vec![Part::Logical {
            kind: LogicalKind::Is,
            head: ":is",
            selectors: vec![vec![other(".a"), class("s1")], vec![other(".b"), class("s1")]],
        }]
    );
}

#[test]
fn compounds_of_lists_alone_beside_other_compounds() {
    let not = |inner: Vec<Part<&'static str>>| Part::Logical {
        kind: LogicalKind::Not,
        head: ":not",
        selectors: vec![inner],
    };
    let has = |inner: Vec<Part<&'static str>>| Part::Logical {
        kind: LogicalKind::Has,
        head: ":has",
        selectors: vec![inner],
    };
    let selector = vec![not(vec![other(".a")]), has(vec![other(".b")]), comb(">"), other("p"), comb(" "), not(vec![])];
    assert_eq!(
        scope_selector(selector, "s1"),
        vec![
            not(vec![other(".a"), class("s1")]),
            has(vec![other(".b"), class("s1")]),
            comb(">"),
            other("p"),
            class("s1"),
            comb(" "),
            not(vec![class("s1")]),
        ]
    );
}

#[test]
fn list_beside_a_class_selector_gets_the_class() {
    let list = || Part::Logical { kind: LogicalKind::Where, head: ":where", selectors: vec![vec![other(".a")]] };
    let scoped_list = || Part::Logical {
        kind: LogicalKind::Where,
        head: ":where",
        selectors: vec![vec![other(".a"), class("s1")]],
    };
    assert_eq!(scope_selector(vec![list(), class("x")], "s1"), vec![scoped_list(), class("x"), class("s1")]);
    assert_eq!(scope_selector(vec![class("x"), list()], "s1"), vec![class("x"), scoped_list(), class("s1")]);
}

#[test]
fn list_beside_a_global_escape_gets_no_class() {
    let list = Part::Logical { kind: LogicalKind::Is, head: ":is", selectors: vec![vec![other(".a")]] };
    assert_eq!(
        scope_selector(vec![Part::Global(vec![other(".g")]), list], "s1"),
        vec![
            other(".g"),
            Part::Logical { kind: LogicalKind::Is, head: ":is", selectors: vec![vec![other(".a"), class("s1")]] },
        ]
    );
}

#[test]
fn lists_inside_a_global_escape_stay_as_they_are() {
    let list = Part::Logical { kind: LogicalKind::Not, head: ":not", selectors: vec![vec![other(".a")]] };
    let same = Part::Logical { kind: LogicalKind::Not, head: ":not", selectors: vec![vec![other(".a")]] };
    assert_eq!(scope_selector(vec![Part::Global(vec![list])], "s1"), vec![same]);
}

#[test]
fn scope_selectors_scopes_each_selector() {
    let list = vec![vec![other("a")], vec![], vec![Part::Global(vec![other("b")])]];
    assert_eq!(
        scope_selectors(list, "s"),
        vec![vec![other("a"), class("s")], vec![class("s")], vec![other("b")]]
    );
}

/// A document that is one chain of ancestors: element 0 is the root, and every
/// element is the child of the one before it.
struct Chain {
    classes: Vec<Vec<&'static str>>,
}

impl Chain {
    fn simple(&self, part: &Part<&'static str>, e: usize) -> bool {
        match part {
            Part::Class(name) => self.classes[e].iter().any(|c| c == name),
            Part::Other(name) => self.classes[e].iter().any(|c| c == name),
            Part::Logical { kind, selectors, .. } => {
                let any = selectors.iter().any(|s| self.matches(s, e));
                match kind {
                    LogicalKind::Not => !any,
                    _ => any,
                }
            }
            _ => false,
        }
    }

    fn walk(&self, parts: &[Part<&'static str>], e: usize) -> Vec<usize> {
        match parts.split_last() {
            None => vec![e],
            Some((Part::Combinator(_), init)) => (0..e).flat_map(|x| self.walk(init, x)).collect(),
            Some((Part::Global(inner), init)) => {
                self.walk(inner, e).into_iter().flat_map(|x| self.walk(init, x)).collect()
            }
            Some((last, init)) => {
                if self.simple(last, e) {
                    self.walk(init, e)
                } else {
                    vec![]
                }
            }
        }
    }

    fn matches(&self, parts: &[Part<&'static str>], e: usize) -> bool {
        !self.walk(parts, e).is_empty()
    }
}

#[test]
fn scoped_selector_matches_no_more_than_the_selector() {
    let document = Chain {
        classes: vec![vec!["a"], vec!["a", "s1"], vec!["b"], vec!["b", "s1"], vec!["a", "b", "s1"]],
    };
    let selectors: Vec<Vec<Part<&'static str>>> = vec![
        vec![other("a")],
        vec![other("a"), comb(" "), other("b")],
        vec![Part::Global(vec![other("a")]), comb(" "), other("b")],
        vec![other("a"), Part::Logical { kind: LogicalKind::Not, head: ":not", selectors: vec![vec![other("b")]] }],
        vec![Part::Logical {
            kind: LogicalKind::Is,
            head: ":is",
            selectors: vec![vec![other("a"), comb(" "), other("b")], vec![other("a")]],
        }],
    ];
    for selector in selectors {
        let scoped = scope_selector(copy(&selector), "s1");
        for e in 0..document.classes.len() {
            if document.matches(&scoped, e) {
                assert!(document.matches(&selector, e));
            }
        }
    }
}

#[test]
fn scoped_selector_matches_only_marked_elements() {
    let document = Chain { classes: vec![vec!["a"], vec!["a", "s1"]] };
    let scoped = scope_selector(vec![other("a")], "s1");
    assert!(!document.matches(&scoped, 0));
    assert!(document.matches(&scoped, 1));
}

#[test]
fn global_selector_matches_as_written() {
    let document = Chain { classes: vec![vec!["a"], vec!["a", "s1"], vec!["b"]] };
    let inner = vec![other("a")];
    let scoped = scope_selector(vec![Part::Global(copy(&inner))], "s1");
    for e in 0..3 {
        assert_eq!(document.matches(&scoped, e), document.matches(&inner, e));
    }
}
