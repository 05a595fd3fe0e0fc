//! What scoping does to the elements that a selector matches.
//!
//! Matching is read off a selector part by part, against a document of which
//! nothing is fixed but what a class is: which simple selector an element
//! matches and where a combinator leads are left open, so that what is shown
//! here holds of every document.

use vstd::prelude::*;

use crate::selector::LogicalKind;
use crate::selector::PartView;
use crate::selector::closed;
use crate::selector::closing;
use crate::selector::listed;
use crate::selector::plain;
use crate::selector::scoped;
use crate::selector::scoped_list;
use crate::selector::scoped_open;
use crate::selector::tainted;

verus! {

/// A document, as far as matching reads it. Elements are numbers.
#[verifier::reject_recursive_types(T)]
pub struct Matcher<T> {
    /// Does the element carry the class?
    pub has_class: spec_fn(int, Seq<char>) -> bool,
    /// Does the element match the simple selector with this payload?
    pub simple: spec_fn(T, int) -> bool,
    /// Does the combinator with this payload lead from the first element to
    /// the second: from a node to an ancestor, to its parent, to a sibling
    /// before it?
    pub related: spec_fn(T, int, int) -> bool,
    /// Does `:has()` with this payload look from the first element at the
    /// second?
    pub reaches: spec_fn(T, int, int) -> bool,
}

/// `x` is an element. Every number is one.
pub open spec fn element(x: int) -> bool {
    true
}

/// The selector matches `e`, and its first compound matches `z`.
///
/// A selector is read from its last part to its first. A simple selector
/// must hold of the element at hand; a combinator moves to an element that it
/// leads to; a global escape stands for the selector that it holds.
pub open spec fn walks<T>(m: Matcher<T>, parts: Seq<PartView<T>>, e: int, z: int) -> bool
    decreases parts, 0int,
{
    if parts.len() == 0 {
        z == e
    } else {
        let init = parts.drop_last();
        match parts.last() {
            PartView::Combinator(c) => exists|x: int|
                #[trigger] (m.related)(c, e, x) && walks(m, init, x, z),
            PartView::Global(inner) => exists|x: int|
                #[trigger] element(x) && walks(m, inner, e, x) && walks(m, init, x, z),
            PartView::Logical { kind, head, selectors } => holds(m, kind, head, selectors, e)
                && walks(m, init, e, z),
            PartView::Class(name) => (m.has_class)(e, name) && walks(m, init, e, z),
            PartView::Other(t) => (m.simple)(t, e) && walks(m, init, e, z),
        }
    }
}

/// The selector matches `e`.
pub open spec fn matches<T>(m: Matcher<T>, parts: Seq<PartView<T>>, e: int) -> bool
    decreases parts, 1int,
{
    exists|z: int| #[trigger] element(z) && walks(m, parts, e, z)
}

/// Some selector of the list matches `e`.
pub open spec fn any_matches<T>(m: Matcher<T>, list: Seq<Seq<PartView<T>>>, e: int) -> bool
    decreases list, 2int,
{
    exists|i: int| 0 <= i < list.len() && #[trigger] element(i) && matches(m, list[i], e)
}

/// The pseudo-class of the kind `kind` with the list `selectors` holds of `e`.
pub open spec fn holds<T>(
    m: Matcher<T>,
    kind: LogicalKind,
    head: T,
    selectors: Seq<Seq<PartView<T>>>,
    e: int,
) -> bool
    decreases selectors, 3int,
{
    match kind {
        LogicalKind::Is => any_matches(m, selectors, e),
        LogicalKind::Where => any_matches(m, selectors, e),
        LogicalKind::Not => !any_matches(m, selectors, e),
        LogicalKind::Has => exists|x: int|
            #[trigger] (m.reaches)(head, e, x) && any_matches(m, selectors, x),
    }
}

/// Does a walk through the selector stay at one element? It does where the
/// selector holds no combinator, not even in a global escape.
pub open spec fn still<T>(parts: Seq<PartView<T>>) -> bool
    decreases parts,
{
    if parts.len() == 0 {
        true
    } else {
        still(parts.drop_last()) && match parts.last() {
            PartView::Combinator(_) => false,
            PartView::Global(inner) => still(inner),
            _ => true,
        }
    }
}

/// What stands behind the part at hand in its compound.
pub struct Behind {
    /// A global escape.
    pub escape: bool,
    /// A class selector or another simple selector without a list.
    pub plain: bool,
    /// A pseudo-class with a list of selectors.
    pub list: bool,
}

/// Nothing stands behind the part at hand: it is the last of its compound.
pub open spec fn nothing_behind() -> Behind {
    Behind { escape: false, plain: false, list: false }
}

/// Does the compound get the class, whose parts are the last compound of
/// `parts` and what stands behind it?
pub open spec fn closed_with<T>(parts: Seq<PartView<T>>, behind: Behind) -> bool {
    !(behind.escape || tainted(parts)) && ((behind.plain || plain(parts)) || !(behind.list
        || listed(parts)))
}

/// The selectors that scoping can only narrow.
///
/// Scoping adds the class to compounds, which narrows the match, except
/// inside `:not()`, where a narrower list makes the negation wider. There the
/// scoped list must match whatever the list matched; see `widening`.
///
/// The selector is read from its last part to its first. `known` says that
/// the element that the selector is matched against carries the class;
/// `last` says that the part at hand belongs to the compound that is matched
/// against that element; `behind` says what stands behind the part at hand in
/// its compound. The element at which a compound is read is known to carry
/// the class where `known` and `last` hold or where the compound gets the
/// class, for then the class closes it.
pub open spec fn narrowing<T>(parts: Seq<PartView<T>>, known: bool, last: bool, behind: Behind) -> bool
    decreases parts, 0int,
{
    if parts.len() == 0 {
        true
    } else {
        let init = parts.drop_last();
        match parts.last() {
            PartView::Combinator(_) => narrowing(init, known, false, nothing_behind()),
            PartView::Global(inner) => narrowing(
                init,
                known,
                last && still(inner),
                Behind { escape: true, ..behind },
            ),
            PartView::Logical { kind, selectors, .. } => {
                let whole = Behind { list: true, ..behind };
                let carries = (last && known) || closed_with(init, whole);
                narrowing(init, known, last, whole) && match kind {
                    LogicalKind::Is => list_narrowing(selectors, carries),
                    LogicalKind::Where => list_narrowing(selectors, carries),
                    LogicalKind::Has => list_narrowing(selectors, false),
                    LogicalKind::Not => list_widening(selectors, carries),
                }
            },
            _ => narrowing(init, known, last, Behind { plain: true, ..behind }),
        }
    }
}

/// Every selector of the list is `narrowing`, read against an element that
/// carries the class where `known` says so.
pub open spec fn list_narrowing<T>(list: Seq<Seq<PartView<T>>>, known: bool) -> bool
    decreases list, 1int,
{
    forall|i: int|
        0 <= i < list.len() ==> narrowing(#[trigger] list[i], known, true, nothing_behind())
}

/// The selectors that match after scoping whatever they matched before.
///
/// That takes every compound to get no class, or to be read at an element
/// that is known to carry the class. Inside `:not()` the list must be
/// `narrowing`. The parameters are those of `narrowing`.
pub open spec fn widening<T>(parts: Seq<PartView<T>>, known: bool, last: bool, behind: Behind) -> bool
    decreases parts, 0int,
{
    if parts.len() == 0 {
        !closed_with(parts, behind) || (last && known)
    } else {
        let init = parts.drop_last();
        match parts.last() {
            PartView::Combinator(_) => (!closed_with(parts, behind) || (last && known))
                && widening(init, known, false, nothing_behind()),
            PartView::Global(inner) => widening(
                init,
                known,
                last && still(inner),
                Behind { escape: true, ..behind },
            ),
            PartView::Logical { kind, selectors, .. } => widening(
                init,
                known,
                last,
                Behind { list: true, ..behind },
            ) && match kind {
                LogicalKind::Is => list_widening(selectors, last && known),
                LogicalKind::Where => list_widening(selectors, last && known),
                LogicalKind::Has => list_widening(selectors, false),
                LogicalKind::Not => list_narrowing(selectors, last && known),
            },
            _ => widening(init, known, last, Behind { plain: true, ..behind }),
        }
    }
}

/// Every selector of the list is `widening`, read against an element that
/// carries the class where `known` says so.
pub open spec fn list_widening<T>(list: Seq<Seq<PartView<T>>>, known: bool) -> bool
    decreases list, 1int,
{
    forall|i: int|
        0 <= i < list.len() ==> widening(#[trigger] list[i], known, true, nothing_behind())
}

/// Two walks, one after the other, are a walk through the joined selector.
pub proof fn lemma_walks_join<T>(
    m: Matcher<T>,
    p: Seq<PartView<T>>,
    q: Seq<PartView<T>>,
    e: int,
    x: int,
    z: int,
)
    requires
        walks(m, q, e, x),
        walks(m, p, x, z),
    ensures
        walks(m, p + q, e, z),
    decreases q.len(),
{
    if q.len() == 0 {
        assert(p + q =~= p);
    } else {
        let init = q.drop_last();
        assert((p + q).drop_last() =~= p + init);
        assert((p + q).last() == q.last());
        match q.last() {
            PartView::Combinator(c) => {
                let y = choose|y: int| #[trigger] (m.related)(c, e, y) && walks(m, init, y, x);
                lemma_walks_join(m, p, init, y, x, z);
                assert((m.related)(c, e, y) && walks(m, p + init, y, z));
            },
            PartView::Global(inner) => {
                let y = choose|y: int|
                    #[trigger] element(y) && walks(m, inner, e, y) && walks(m, init, y, x);
                lemma_walks_join(m, p, init, y, x, z);
                assert(element(y) && walks(m, inner, e, y) && walks(m, p + init, y, z));
            },
            _ => {
                lemma_walks_join(m, p, init, e, x, z);
            },
        }
    }
}

/// A walk through a joined selector is two walks, one after the other; the
/// result is the element at which they meet.
pub proof fn lemma_walks_split<T>(
    m: Matcher<T>,
    p: Seq<PartView<T>>,
    q: Seq<PartView<T>>,
    e: int,
    z: int,
) -> (x: int)
    requires
        walks(m, p + q, e, z),
    ensures
        walks(m, q, e, x),
        walks(m, p, x, z),
    decreases q.len(),
{
    if q.len() == 0 {
        assert(p + q =~= p);
        e
    } else {
        let init = q.drop_last();
        assert((p + q).drop_last() =~= p + init);
        assert((p + q).last() == q.last());
        match q.last() {
            PartView::Combinator(c) => {
                let y = choose|y: int|
                    #[trigger] (m.related)(c, e, y) && walks(m, p + init, y, z);
                let x = lemma_walks_split(m, p, init, y, z);
                assert((m.related)(c, e, y) && walks(m, init, y, x));
                x
            },
            PartView::Global(inner) => {
                let y = choose|y: int|
                    #[trigger] element(y) && walks(m, inner, e, y) && walks(m, p + init, y, z);
                let x = lemma_walks_split(m, p, init, y, z);
                assert(element(y) && walks(m, inner, e, y) && walks(m, init, y, x));
                x
            },
            _ => lemma_walks_split(m, p, init, e, z),
        }
    }
}

/// A walk through a selector without a combinator ends where it began.
pub proof fn lemma_still<T>(m: Matcher<T>, parts: Seq<PartView<T>>, e: int, z: int)
    requires
        still(parts),
        walks(m, parts, e, z),
    ensures
        z == e,
    decreases parts,
{
    if parts.len() > 0 {
        let init = parts.drop_last();
        match parts.last() {
            PartView::Global(inner) => {
                let x = choose|x: int|
                    #[trigger] element(x) && walks(m, inner, e, x) && walks(m, init, x, z);
                lemma_still(m, inner, e, x);
                lemma_still(m, init, x, z);
            },
            _ => {
                lemma_still(m, init, e, z);
            },
        }
    }
}

/// The last compound of a `widening` selector gets no class or is read at an
/// element that is known to carry the class.
pub proof fn lemma_widening_closed<T>(
    parts: Seq<PartView<T>>,
    known: bool,
    last: bool,
    behind: Behind,
)
    requires
        widening(parts, known, last, behind),
    ensures
        !closed_with(parts, behind) || (last && known),
    decreases parts.len(),
{
    if parts.len() > 0 {
        let init = parts.drop_last();
        match parts.last() {
            PartView::Combinator(_) => {},
            PartView::Global(_) => {},
            PartView::Logical { .. } => {
                lemma_widening_closed(init, known, last, Behind { list: true, ..behind });
            },
            _ => {
                lemma_widening_closed(init, known, last, Behind { plain: true, ..behind });
            },
        }
    }
}

/// A walk through a scoped `narrowing` selector, the closing class left aside,
/// is a walk through the selector.
pub proof fn lemma_open_narrows<T>(
    m: Matcher<T>,
    parts: Seq<PartView<T>>,
    class: Seq<char>,
    known: bool,
    last: bool,
    behind: Behind,
    e: int,
    z: int,
)
    requires
        narrowing(parts, known, last, behind),
        walks(m, scoped_open(parts, class), e, z),
        (last && known) || closed_with(parts, behind) ==> (m.has_class)(e, class),
    ensures
        walks(m, parts, e, z),
    decreases parts, 0int,
{
    reveal_with_fuel(walks, 2);
    reveal_with_fuel(holds, 2);
    if parts.len() > 0 {
        let init = parts.drop_last();
        let open = scoped_open(init, class);
        match parts.last() {
            PartView::Combinator(c) => {
                let before = scoped(init, class);
                let all = before + seq![PartView::Combinator(c)];
                assert(scoped_open(parts, class) =~= all);
                assert(all.drop_last() =~= before);
                let y = choose|y: int| #[trigger] (m.related)(c, e, y) && walks(m, before, y, z);
                lemma_scoped_narrows(m, init, class, known, false, y, z);
                assert((m.related)(c, e, y) && walks(m, init, y, z));
            },
            PartView::Global(inner) => {
                let x = lemma_walks_split(m, open, inner, e, z);
                if still(inner) {
                    lemma_still(m, inner, e, x);
                }
                lemma_open_narrows(
                    m,
                    init,
                    class,
                    known,
                    last && still(inner),
                    Behind { escape: true, ..behind },
                    x,
                    z,
                );
                assert(element(x) && walks(m, inner, e, x) && walks(m, init, x, z));
            },
            PartView::Logical { kind, head, selectors } => {
                let after = scoped_list(selectors, class);
                let next = PartView::Logical { kind, head, selectors: after };
                let whole = Behind { list: true, ..behind };
                let carries = (last && known) || closed_with(init, whole);
                assert((open + seq![next]).drop_last() =~= open);
                assert((open + seq![next]).last() == next);
                lemma_open_narrows(m, init, class, known, last, whole, e, z);
                match kind {
                    LogicalKind::Is => {
                        lemma_list_narrows(m, selectors, class, carries, e);
                    },
                    LogicalKind::Where => {
                        lemma_list_narrows(m, selectors, class, carries, e);
                    },
                    LogicalKind::Not => {
                        if any_matches(m, selectors, e) {
                            lemma_list_widens(m, selectors, class, carries, e);
                        }
                    },
                    LogicalKind::Has => {
                        let x = choose|x: int|
                            #[trigger] (m.reaches)(head, e, x) && any_matches(m, after, x);
                        lemma_list_narrows(m, selectors, class, false, x);
                        assert((m.reaches)(head, e, x) && any_matches(m, selectors, x));
                    },
                }
            },
            PartView::Class(name) => {
                assert((open + seq![parts.last()]).drop_last() =~= open);
                lemma_open_narrows(m, init, class, known, last, Behind { plain: true, ..behind }, e, z);
            },
            PartView::Other(t) => {
                assert((open + seq![parts.last()]).drop_last() =~= open);
                lemma_open_narrows(m, init, class, known, last, Behind { plain: true, ..behind }, e, z);
            },
        }
    }
}

/// A walk through a scoped `narrowing` selector is a walk through the
/// selector.
pub proof fn lemma_scoped_narrows<T>(
    m: Matcher<T>,
    parts: Seq<PartView<T>>,
    class: Seq<char>,
    known: bool,
    last: bool,
    e: int,
    z: int,
)
    requires
        narrowing(parts, known, last, nothing_behind()),
        walks(m, scoped(parts, class), e, z),
        last && known ==> (m.has_class)(e, class),
    ensures
        walks(m, parts, e, z),
    decreases parts, 1int,
{
    let open = scoped_open(parts, class);
    if closed(parts) {
        assert(scoped(parts, class).drop_last() =~= open);
        assert(scoped(parts, class).last() == PartView::<T>::Class(class));
    } else {
        assert(scoped(parts, class) =~= open);
    }
    lemma_open_narrows(m, parts, class, known, last, nothing_behind(), e, z);
}

/// Where some selector of a scoped list of `narrowing` selectors matches, some
/// selector of the list matches.
pub proof fn lemma_list_narrows<T>(
    m: Matcher<T>,
    list: Seq<Seq<PartView<T>>>,
    class: Seq<char>,
    known: bool,
    e: int,
)
    requires
        list_narrowing(list, known),
        any_matches(m, scoped_list(list, class), e),
        known ==> (m.has_class)(e, class),
    ensures
        any_matches(m, list, e),
    decreases list, 2int,
{
    let after = scoped_list(list, class);
    let i = choose|i: int|
        0 <= i < after.len() && #[trigger] element(i) && matches(m, after[i], e);
    let z = choose|z: int| #[trigger] element(z) && walks(m, after[i], e, z);
    lemma_scoped_narrows(m, list[i], class, known, true, e, z);
    assert(element(z) && walks(m, list[i], e, z));
    assert(element(i) && matches(m, list[i], e));
}

/// A walk through a `widening` selector is a walk through the scoped
/// selector, the closing class left aside.
pub proof fn lemma_open_widens<T>(
    m: Matcher<T>,
    parts: Seq<PartView<T>>,
    class: Seq<char>,
    known: bool,
    last: bool,
    behind: Behind,
    e: int,
    z: int,
)
    requires
        widening(parts, known, last, behind),
        walks(m, parts, e, z),
        last && known ==> (m.has_class)(e, class),
    ensures
        walks(m, scoped_open(parts, class), e, z),
    decreases parts, 0int,
{
    reveal_with_fuel(walks, 2);
    reveal_with_fuel(holds, 2);
    if parts.len() > 0 {
        let init = parts.drop_last();
        let open = scoped_open(init, class);
        match parts.last() {
            PartView::Combinator(c) => {
                let before = scoped(init, class);
                let all = before + seq![PartView::Combinator(c)];
                assert(scoped_open(parts, class) =~= all);
                assert(all.drop_last() =~= before);
                assert(all.last() == PartView::Combinator(c));
                let y = choose|y: int| #[trigger] (m.related)(c, e, y) && walks(m, init, y, z);
                lemma_scoped_widens(m, init, class, known, false, y, z);
                assert((m.related)(c, e, y) && walks(m, before, y, z));
            },
            PartView::Global(inner) => {
                let x = choose|x: int|
                    #[trigger] element(x) && walks(m, inner, e, x) && walks(m, init, x, z);
                if still(inner) {
                    lemma_still(m, inner, e, x);
                }
                lemma_open_widens(
                    m,
                    init,
                    class,
                    known,
                    last && still(inner),
                    Behind { escape: true, ..behind },
                    x,
                    z,
                );
                lemma_walks_join(m, open, inner, e, x, z);
            },
            PartView::Logical { kind, head, selectors } => {
                let after = scoped_list(selectors, class);
                let next = PartView::Logical { kind, head, selectors: after };
                assert((open + seq![next]).drop_last() =~= open);
                assert((open + seq![next]).last() == next);
                lemma_open_widens(m, init, class, known, last, Behind { list: true, ..behind }, e, z);
                match kind {
                    LogicalKind::Is => {
                        lemma_list_widens(m, selectors, class, last && known, e);
                    },
                    LogicalKind::Where => {
                        lemma_list_widens(m, selectors, class, last && known, e);
                    },
                    LogicalKind::Not => {
                        if any_matches(m, after, e) {
                            lemma_list_narrows(m, selectors, class, last && known, e);
                        }
                    },
                    LogicalKind::Has => {
                        let x = choose|x: int|
                            #[trigger] (m.reaches)(head, e, x) && any_matches(m, selectors, x);
                        lemma_list_widens(m, selectors, class, false, x);
                        assert((m.reaches)(head, e, x) && any_matches(m, after, x));
                    },
                }
            },
            PartView::Class(name) => {
                assert((open + seq![parts.last()]).drop_last() =~= open);
                assert((open + seq![parts.last()]).last() == parts.last());
                lemma_open_widens(m, init, class, known, last, Behind { plain: true, ..behind }, e, z);
            },
            PartView::Other(t) => {
                assert((open + seq![parts.last()]).drop_last() =~= open);
                assert((open + seq![parts.last()]).last() == parts.last());
                lemma_open_widens(m, init, class, known, last, Behind { plain: true, ..behind }, e, z);
            },
        }
    }
}

/// A walk through a `widening` selector is a walk through the scoped
/// selector.
pub proof fn lemma_scoped_widens<T>(
    m: Matcher<T>,
    parts: Seq<PartView<T>>,
    class: Seq<char>,
    known: bool,
    last: bool,
    e: int,
    z: int,
)
    requires
        widening(parts, known, last, nothing_behind()),
        walks(m, parts, e, z),
        last && known ==> (m.has_class)(e, class),
    ensures
        walks(m, scoped(parts, class), e, z),
    decreases parts, 1int,
{
    reveal_with_fuel(walks, 2);
    let open = scoped_open(parts, class);
    lemma_open_widens(m, parts, class, known, last, nothing_behind(), e, z);
    lemma_widening_closed(parts, known, last, nothing_behind());
    if closed(parts) {
        assert(scoped(parts, class).drop_last() =~= open);
        assert(scoped(parts, class).last() == PartView::<T>::Class(class));
    } else {
        assert(scoped(parts, class) =~= open);
    }
}

/// Where some selector of a list of `widening` selectors matches, some
/// selector of the scoped list matches.
pub proof fn lemma_list_widens<T>(
    m: Matcher<T>,
    list: Seq<Seq<PartView<T>>>,
    class: Seq<char>,
    known: bool,
    e: int,
)
    requires
        list_widening(list, known),
        any_matches(m, list, e),
        known ==> (m.has_class)(e, class),
    ensures
        any_matches(m, scoped_list(list, class), e),
    decreases list, 2int,
{
    let after = scoped_list(list, class);
    let i = choose|i: int| 0 <= i < list.len() && #[trigger] element(i) && matches(m, list[i], e);
    let z = choose|z: int| #[trigger] element(z) && walks(m, list[i], e, z);
    lemma_scoped_widens(m, list[i], class, known, true, e, z);
    assert(element(z) && walks(m, after[i], e, z));
    assert(element(i) && matches(m, after[i], e));
}

/// Scoping narrows the match: an element that carries the class and that the
/// scoped selector matches is an element that the selector matches, whatever
/// the document, for every `narrowing` selector.
pub proof fn lemma_scoping_narrows<T>(
    m: Matcher<T>,
    parts: Seq<PartView<T>>,
    class: Seq<char>,
    e: int,
)
    requires
        narrowing(parts, true, true, nothing_behind()),
        (m.has_class)(e, class),
        matches(m, scoped(parts, class), e),
    ensures
        matches(m, parts, e),
{
    let z = choose|z: int| #[trigger] element(z) && walks(m, scoped(parts, class), e, z);
    lemma_scoped_narrows(m, parts, class, true, true, e, z);
    assert(element(z) && walks(m, parts, e, z));
}

/// Scoping narrows the match on every element, whether it carries the class
/// or not, for a selector that is `narrowing` without that knowledge.
pub proof fn lemma_scoping_narrows_everywhere<T>(
    m: Matcher<T>,
    parts: Seq<PartView<T>>,
    class: Seq<char>,
    e: int,
)
    requires
        narrowing(parts, false, true, nothing_behind()),
        matches(m, scoped(parts, class), e),
    ensures
        matches(m, parts, e),
{
    let z = choose|z: int| #[trigger] element(z) && walks(m, scoped(parts, class), e, z);
    lemma_scoped_narrows(m, parts, class, false, true, e, z);
    assert(element(z) && walks(m, parts, e, z));
}

/// The selector holds no `:not()` outside its global escapes, at any depth.
pub open spec fn positive<T>(parts: Seq<PartView<T>>) -> bool
    decreases parts, 0int,
{
    if parts.len() == 0 {
        true
    } else {
        positive(parts.drop_last()) && match parts.last() {
            PartView::Logical { kind, selectors, .. } => kind != LogicalKind::Not && list_positive(
                selectors,
            ),
            _ => true,
        }
    }
}

/// Every selector of the list is `positive`.
pub open spec fn list_positive<T>(list: Seq<Seq<PartView<T>>>) -> bool
    decreases list, 1int,
{
    forall|i: int| 0 <= i < list.len() ==> positive(#[trigger] list[i])
}

/// A selector without `:not()` is `narrowing`, whatever is known.
pub proof fn lemma_positive_narrowing<T>(
    parts: Seq<PartView<T>>,
    known: bool,
    last: bool,
    behind: Behind,
)
    requires
        positive(parts),
    ensures
        narrowing(parts, known, last, behind),
    decreases parts, 0int,
{
    reveal_with_fuel(positive, 2);
    reveal_with_fuel(narrowing, 2);
    if parts.len() > 0 {
        let init = parts.drop_last();
        match parts.last() {
            PartView::Combinator(_) => {
                lemma_positive_narrowing(init, known, false, nothing_behind());
            },
            PartView::Global(inner) => {
                lemma_positive_narrowing(
                    init,
                    known,
                    last && still(inner),
                    Behind { escape: true, ..behind },
                );
            },
            PartView::Logical { kind, selectors, .. } => {
                let whole = Behind { list: true, ..behind };
                lemma_positive_narrowing(init, known, last, whole);
                let carries = (last && known) || closed_with(init, whole);
                assert forall|i: int| 0 <= i < selectors.len() implies narrowing(
                    #[trigger] selectors[i],
                    carries,
                    true,
                    nothing_behind(),
                ) && narrowing(selectors[i], false, true, nothing_behind()) by {
                    lemma_positive_narrowing(selectors[i], carries, true, nothing_behind());
                    lemma_positive_narrowing(selectors[i], false, true, nothing_behind());
                }
            },
            _ => {
                lemma_positive_narrowing(init, known, last, Behind { plain: true, ..behind });
            },
        }
    }
}

/// An element that a scoped selector matches carries the class, where the
/// last compound of the selector gets the class: where it holds no global
/// escape and is not made of pseudo-classes with lists of selectors alone.
pub proof fn lemma_scoped_carries_class<T>(
    m: Matcher<T>,
    parts: Seq<PartView<T>>,
    class: Seq<char>,
    e: int,
)
    requires
        closed(parts),
        matches(m, scoped(parts, class), e),
    ensures
        (m.has_class)(e, class),
{
    assert(scoped(parts, class).last() == PartView::<T>::Class(class));
}

/// A selector that is one pseudo-class with a list of selectors is scoped
/// through its list alone: it gets no class at its own level.
pub proof fn lemma_list_alone<T>(
    kind: LogicalKind,
    head: T,
    selectors: Seq<Seq<PartView<T>>>,
    class: Seq<char>,
)
    ensures
        scoped(seq![PartView::Logical { kind, head, selectors }], class) == seq![
            PartView::Logical { kind, head, selectors: scoped_list(selectors, class) },
        ],
{
    reveal_with_fuel(plain, 2);
    reveal_with_fuel(listed, 2);
    reveal_with_fuel(tainted, 2);
    let parts = seq![PartView::Logical { kind, head, selectors }];
    assert(parts.drop_last() =~= Seq::<PartView<T>>::empty());
    assert(parts.last() == PartView::Logical { kind, head, selectors });
    assert(scoped_open(parts.drop_last(), class) =~= Seq::<PartView<T>>::empty());
    assert(!closed(parts));
    assert(scoped(parts, class) =~= seq![
        PartView::Logical { kind, head, selectors: scoped_list(selectors, class) },
    ]);
}

/// A compound that holds another simple selector beside a pseudo-class with a
/// list of selectors gets the class, behind its last part.
pub proof fn lemma_list_beside_plain<T>(
    first: T,
    kind: LogicalKind,
    head: T,
    selectors: Seq<Seq<PartView<T>>>,
    class: Seq<char>,
)
    ensures
        scoped(seq![PartView::Other(first), PartView::Logical { kind, head, selectors }], class)
            == seq![
            PartView::Other(first),
            PartView::Logical { kind, head, selectors: scoped_list(selectors, class) },
            PartView::Class(class),
        ],
{
    reveal_with_fuel(scoped_open, 3);
    reveal_with_fuel(plain, 3);
    reveal_with_fuel(listed, 3);
    reveal_with_fuel(tainted, 3);
    let parts = seq![PartView::Other(first), PartView::Logical { kind, head, selectors }];
    let init = parts.drop_last();
    assert(init =~= seq![PartView::Other(first)]);
    assert(init.drop_last() =~= Seq::<PartView<T>>::empty());
    assert(scoped_open(init, class) =~= seq![PartView::Other(first)]);
    assert(closed(parts));
    assert(scoped(parts, class) =~= seq![
        PartView::Other(first),
        PartView::Logical { kind, head, selectors: scoped_list(selectors, class) },
        PartView::Class(class),
    ]);
}

/// A global escape matches exactly as the selector that it holds.
pub proof fn lemma_global_matches<T>(m: Matcher<T>, inner: Seq<PartView<T>>, e: int)
    ensures
        matches(m, seq![PartView::Global(inner)], e) == matches(m, inner, e),
{
    reveal_with_fuel(walks, 2);
    let parts = seq![PartView::Global(inner)];
    assert(parts.drop_last() =~= Seq::<PartView<T>>::empty());
    assert(parts.last() == PartView::Global(inner));
    if matches(m, parts, e) {
        let z = choose|z: int| #[trigger] element(z) && walks(m, parts, e, z);
        let x = choose|x: int|
            #[trigger] element(x) && walks(m, inner, e, x) && walks(m, parts.drop_last(), x, z);
        assert(element(x) && walks(m, inner, e, x));
    }
    if matches(m, inner, e) {
        let x = choose|x: int| #[trigger] element(x) && walks(m, inner, e, x);
        assert(element(x) && walks(m, inner, e, x) && walks(m, parts.drop_last(), x, x));
        assert(element(x) && walks(m, parts, e, x));
    }
}

/// A selector that is one global escape is scoped to the selector that the
/// escape holds, as it is.
pub proof fn lemma_global_verbatim<T>(inner: Seq<PartView<T>>, class: Seq<char>)
    ensures
        scoped(seq![PartView::Global(inner)], class) == inner,
{
    let parts = seq![PartView::Global(inner)];
    assert(parts.drop_last() =~= Seq::<PartView<T>>::empty());
    assert(scoped_open(parts.drop_last(), class) =~= Seq::<PartView<T>>::empty());
    assert(scoped(parts, class) =~= inner);
}

} // verus!
