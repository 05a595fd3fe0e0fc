//! The selector-scoping transform.
//!
//! A complex selector is a list of parts in source order: the simple
//! selectors of a compound one after the other, and a combinator between two
//! compounds. The transform appends the class of a component to every
//! compound, so that a rule of the component matches the nodes of that
//! component only. A global escape is replaced by the selector that it holds,
//! and a compound that holds a part of an escape gets no class.
//!
//! The selectors inside `:is()`, `:where()`, `:has()` and `:not()` are scoped
//! in the same way. A compound that is made of such pseudo-classes and
//! nothing else is scoped through their lists alone and gets no class of its
//! own: `:is(.a, .b)` becomes `:is(.a.s, .b.s)`. A compound that holds
//! another simple selector beside the pseudo-class gets the class as every
//! other compound does: `div:is(.a)` becomes `div:is(.a.s).s`. A compound
//! without any part gets the class too.
//!
//! Every style sheet that a component declares is scoped this way, compound
//! by compound. There is no second, coarser policy for `style` elements in
//! markup: such an element is rendered as any other node.
//!
//! What a part is made of is left to the caller: a part carries a payload of
//! a type that the caller chooses, and the transform moves payloads without
//! looking at them.

use vstd::prelude::*;

pub mod matching;

verus! {

/// The kind of a pseudo-class that takes a list of selectors.
#[derive(Clone, Copy, Debug, PartialEq, Eq, Structural)]
pub enum LogicalKind {
    /// `:is()`: some selector of the list matches the element.
    Is,
    /// `:where()`: as `:is()`.
    Where,
    /// `:not()`: no selector of the list matches the element.
    Not,
    /// `:has()`: some selector of the list matches an element that the
    /// element reaches.
    Has,
}

/// One part of a complex selector.
#[derive(Debug, PartialEq, Eq)]
pub enum Part<T> {
    /// A combinator between two compounds.
    Combinator(T),
    /// The global escape, with the selector that it holds.
    Global(Vec<Part<T>>),
    /// A pseudo-class that takes a list of selectors.
    Logical { kind: LogicalKind, head: T, selectors: Vec<Vec<Part<T>>> },
    /// A class selector.
    Class(String),
    /// Any other simple selector.
    Other(T),
}

/// One part of a complex selector, as a mathematical value.
pub enum PartView<T> {
    Combinator(T),
    Global(Seq<PartView<T>>),
    Logical { kind: LogicalKind, head: T, selectors: Seq<Seq<PartView<T>>> },
    Class(Seq<char>),
    Other(T),
}

/// The part that `p` stands for.
pub open spec fn part_view<T>(p: Part<T>) -> PartView<T>
    decreases p,
{
    match p {
        Part::Combinator(c) => PartView::Combinator(c),
        Part::Global(inner) => PartView::Global(
            Seq::new(
                inner@.len(),
                |i: int|
                    if 0 <= i < inner@.len() {
                        part_view(inner@[i])
                    } else {
                        PartView::Class(Seq::empty())
                    },
            ),
        ),
        Part::Logical { kind, head, selectors } => PartView::Logical {
            kind,
            head,
            selectors: Seq::new(
                selectors@.len(),
                |i: int|
                    if 0 <= i < selectors@.len() {
                        Seq::new(
                            selectors@[i]@.len(),
                            |j: int|
                                if 0 <= j < selectors@[i]@.len() {
                                    part_view(selectors@[i]@[j])
                                } else {
                                    PartView::Class(Seq::empty())
                                },
                        )
                    } else {
                        Seq::empty()
                    },
            ),
        },
        Part::Class(name) => PartView::Class(name@),
        Part::Other(t) => PartView::Other(t),
    }
}

/// The selector that `parts` stands for.
pub open spec fn selector_view<T>(parts: Seq<Part<T>>) -> Seq<PartView<T>> {
    Seq::new(parts.len(), |i: int| part_view(parts[i]))
}

/// The selectors that `list` stands for.
pub open spec fn selectors_view<T>(list: Seq<Vec<Part<T>>>) -> Seq<Seq<PartView<T>>> {
    Seq::new(list.len(), |i: int| selector_view(list[i]@))
}

/// Does the last compound of the selector hold a part of a global escape?
pub open spec fn tainted<T>(parts: Seq<PartView<T>>) -> bool
    decreases parts.len(),
{
    if parts.len() == 0 {
        false
    } else {
        match parts.last() {
            PartView::Combinator(_) => false,
            PartView::Global(_) => true,
            _ => tainted(parts.drop_last()),
        }
    }
}

/// Does the last compound of the selector hold a class selector or another
/// simple selector that is neither a global escape nor a pseudo-class with a
/// list of selectors?
pub open spec fn plain<T>(parts: Seq<PartView<T>>) -> bool
    decreases parts.len(),
{
    if parts.len() == 0 {
        false
    } else {
        match parts.last() {
            PartView::Combinator(_) => false,
            PartView::Class(_) => true,
            PartView::Other(_) => true,
            _ => plain(parts.drop_last()),
        }
    }
}

/// Does the last compound of the selector hold a pseudo-class with a list of
/// selectors?
pub open spec fn listed<T>(parts: Seq<PartView<T>>) -> bool
    decreases parts.len(),
{
    if parts.len() == 0 {
        false
    } else {
        match parts.last() {
            PartView::Combinator(_) => false,
            PartView::Logical { .. } => true,
            _ => listed(parts.drop_last()),
        }
    }
}

/// Does the last compound of the selector get the class? It does unless it
/// holds a part of a global escape, and unless it is made of pseudo-classes
/// with lists of selectors and nothing else.
pub open spec fn closed<T>(parts: Seq<PartView<T>>) -> bool {
    !tainted(parts) && (plain(parts) || !listed(parts))
}

/// What closes a compound: the class where the compound gets it, nothing
/// where it does not.
pub open spec fn closing<T>(closed: bool, class: Seq<char>) -> Seq<PartView<T>> {
    if closed {
        seq![PartView::Class(class)]
    } else {
        Seq::empty()
    }
}

/// The scoped selector without the class that closes its last compound.
///
/// A combinator closes the compound before it and stays where it is. A global
/// escape gives way to the parts that it holds, as they are. A pseudo-class
/// with a list of selectors stays, with every selector of its list scoped. Any
/// other part stays as it is.
pub open spec fn scoped_open<T>(parts: Seq<PartView<T>>, class: Seq<char>) -> Seq<PartView<T>>
    decreases parts, 0int,
{
    if parts.len() == 0 {
        Seq::empty()
    } else {
        let init = parts.drop_last();
        match parts.last() {
            PartView::Combinator(c) => scoped_open(init, class) + closing(closed(init), class)
                + seq![PartView::Combinator(c)],
            PartView::Global(inner) => scoped_open(init, class) + inner,
            PartView::Logical { kind, head, selectors } => scoped_open(init, class) + seq![
                PartView::Logical { kind, head, selectors: scoped_list(selectors, class) },
            ],
            other => scoped_open(init, class) + seq![other],
        }
    }
}

/// Every selector of the list, scoped.
pub open spec fn scoped_list<T>(list: Seq<Seq<PartView<T>>>, class: Seq<char>) -> Seq<
    Seq<PartView<T>>,
>
    decreases list, 1int,
{
    Seq::new(
        list.len(),
        |i: int|
            if 0 <= i < list.len() {
                scoped(list[i], class)
            } else {
                Seq::empty()
            },
    )
}

/// The scoped selector: every compound that is `closed` ends with the class,
/// every global escape has given way to the selector that it holds, and every
/// selector in a list of a pseudo-class is scoped.
pub open spec fn scoped<T>(parts: Seq<PartView<T>>, class: Seq<char>) -> Seq<PartView<T>>
    decreases parts, 1int,
{
    scoped_open(parts, class) + closing(closed(parts), class)
}

/// The members of `v` in the opposite order.
fn reversed<A>(v: Vec<A>) -> (r: Vec<A>)
    ensures
        r@.len() == v@.len(),
        forall|k: int| 0 <= k < r@.len() ==> r@[k] == v@[v@.len() - 1 - k],
{
    let ghost whole = v@;
    let mut rest = v;
    let mut out: Vec<A> = Vec::new();
    loop
        invariant
            rest@.len() + out@.len() == whole.len(),
            rest@ == whole.take(rest@.len() as int),
            forall|k: int| 0 <= k < out@.len() ==> out@[k] == whole[whole.len() - 1 - k],
        ensures
            rest@.len() == 0,
        decreases rest@.len(),
    {
        match rest.pop() {
            Some(x) => {
                out.push(x);
            },
            None => {
                break ;
            },
        }
    }
    out
}

/// Scopes the selector `parts` with the class `class`: every compound gets
/// the class as its last part, unless it holds a part of a global escape or
/// is made of pseudo-classes with lists of selectors alone; every global
/// escape gives way to the selector that it holds; and every selector in the
/// list of a pseudo-class is scoped in the same way.
pub fn scope_selector<T>(parts: Vec<Part<T>>, class: &str) -> (r: Vec<Part<T>>)
    ensures
        selector_view(r@) == scoped(selector_view(parts@), class@),
    decreases parts,
{
    let ghost whole = parts@;
    let ghost views = selector_view(parts@);
    let mut stack = reversed(parts);
    let mut out: Vec<Part<T>> = Vec::new();
    let mut taint = false;
    let mut plain_part = false;
    let mut list_part = false;
    let ghost mut n: int = 0;
    proof {
        assert(views.take(0) =~= Seq::<PartView<T>>::empty());
        assert(selector_view(out@) =~= scoped_open(views.take(0), class@));
    }
    loop
        invariant
            0 <= n <= whole.len(),
            whole == parts@,
            views == selector_view(whole),
            stack@.len() + n == whole.len(),
            forall|k: int| 0 <= k < stack@.len() ==> stack@[k] == whole[whole.len() - 1 - k],
            selector_view(out@) == scoped_open(views.take(n), class@),
            taint == tainted(views.take(n)),
            plain_part == plain(views.take(n)),
            list_part == listed(views.take(n)),
        ensures
            stack@.len() == 0,
        decreases stack@.len(),
    {
        let ghost before = selector_view(out@);
        let ghost top = stack@.len() - 1;
        match stack.pop() {
            None => {
                break ;
            },
            Some(part) => {
                proof {
                    assert(part == whole[n]);
                    assert(views.take(n + 1).drop_last() =~= views.take(n));
                    assert(views.take(n + 1).last() == part_view(part));
                    assert(decreases_to!(parts => parts@[n]));
                }
                match part {
                    Part::Combinator(c) => {
                        let close = !taint && (plain_part || !list_part);
                        if close {
                            out.push(Part::Class(class.to_owned()));
                        }
                        out.push(Part::Combinator(c));
                        proof {
                            assert(selector_view(out@) =~= before + closing(close, class@) + seq![
                                PartView::Combinator(c),
                            ]);
                        }
                        taint = false;
                        plain_part = false;
                        list_part = false;
                    },
                    Part::Global(inner) => {
                        let mut inner = inner;
                        let ghost held = inner@;
                        out.append(&mut inner);
                        proof {
                            assert(selector_view(out@) =~= before + selector_view(held));
                            assert(part_view(part)->Global_0 =~= selector_view(held));
                        }
                        taint = true;
                    },
                    Part::Logical { kind, head, selectors } => {
                        let ghost list = selectors@;
                        let done = scope_selectors(selectors, class);
                        proof {
                            assert(part_view(part)->selectors =~~= selectors_view(list));
                        }
                        out.push(Part::Logical { kind, head, selectors: done });
                        proof {
                            let next = PartView::Logical {
                                kind,
                                head,
                                selectors: scoped_list(selectors_view(list), class@),
                            };
                            assert(part_view(out@[out@.len() - 1])->selectors =~~= scoped_list(
                                selectors_view(list),
                                class@,
                            ));
                            assert(selector_view(out@) =~= before + seq![next]);
                        }
                        list_part = true;
                    },
                    Part::Class(name) => {
                        out.push(Part::Class(name));
                        proof {
                            assert(selector_view(out@) =~= before + seq![part_view(part)]);
                        }
                        plain_part = true;
                    },
                    Part::Other(t) => {
                        out.push(Part::Other(t));
                        proof {
                            assert(selector_view(out@) =~= before + seq![part_view(part)]);
                        }
                        plain_part = true;
                    },
                }
                proof {
                    n = n + 1;
                }
            },
        }
    }
    proof {
        assert(views.take(n) =~= views);
    }
    let ghost before = selector_view(out@);
    let close = !taint && (plain_part || !list_part);
    if close {
        out.push(Part::Class(class.to_owned()));
    }
    proof {
        assert(selector_view(out@) =~= before + closing(close, class@));
    }
    out
}

/// Scopes every selector of `list` with the class `class`.
pub fn scope_selectors<T>(list: Vec<Vec<Part<T>>>, class: &str) -> (r: Vec<Vec<Part<T>>>)
    ensures
        selectors_view(r@) == scoped_list(selectors_view(list@), class@),
    decreases list,
{
    let ghost whole = list@;
    let mut stack = reversed(list);
    let mut out: Vec<Vec<Part<T>>> = Vec::new();
    loop
        invariant
            whole == list@,
            stack@.len() + out@.len() == whole.len(),
            forall|k: int| 0 <= k < stack@.len() ==> stack@[k] == whole[whole.len() - 1 - k],
            forall|k: int|
                0 <= k < out@.len() ==> selector_view(#[trigger] out@[k]@) == scoped(
                    selector_view(whole[k]@),
                    class@,
                ),
        ensures
            stack@.len() == 0,
        decreases stack@.len(),
    {
        let ghost n = out@.len() as int;
        match stack.pop() {
            None => {
                break ;
            },
            Some(selector) => {
                proof {
                    assert(selector == whole[n]);
                    assert(decreases_to!(list => list@[n]));
                }
                let done = scope_selector(selector, class);
                out.push(done);
            },
        }
    }
    proof {
        assert(selectors_view(out@) =~= scoped_list(selectors_view(whole), class@));
    }
    out
}

} // verus!
