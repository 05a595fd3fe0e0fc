//! Paths as texts.
//!
//! A path is a text whose components are separated by `/`. The functions
//! here take a path apart and put paths together without looking at a file
//! system. Paths are compared as texts: the functions never add a `/` at the
//! end of a path, so that a path that they made has one spelling.
//!
//! This is not what `std::path` does, which compares paths component by
//! component. Here two spellings of one place are two paths:
//!
//! - `a//b` is not `a/b`;
//! - `a/` is not `a`: its file name is empty and its parent is `a`;
//! - a component `.` or `..` is a component like any other: `a/./b` is not
//!   `a/b`, and the parent of `a/..` is `a`.
//!
//! The paths that the library is given come from a walk over a directory and
//! from request paths without the `/` at their ends; a caller with other
//! paths brings them into one spelling first.

use vstd::prelude::*;

use crate::text::chars_of;
use crate::text::string_of;

verus! {

/// The index of the last `c` among the first `n` characters of `s`, or -1.
pub open spec fn last_index(s: Seq<char>, c: char, n: int) -> int
    decreases n,
{
    if n <= 0 {
        -1
    } else if s[n - 1] == c {
        n - 1
    } else {
        last_index(s, c, n - 1)
    }
}

/// `last_index` is -1 or the index of a `c` before `n`.
pub proof fn lemma_last_index(s: Seq<char>, c: char, n: int)
    requires
        0 <= n <= s.len(),
    ensures
        -1 <= last_index(s, c, n) < n,
        last_index(s, c, n) >= 0 ==> s[last_index(s, c, n)] == c,
        forall|k: int| last_index(s, c, n) < k < n ==> s[k] != c,
    decreases n,
{
    if n > 0 && s[n - 1] != c {
        lemma_last_index(s, c, n - 1);
    }
}

/// The last component of the path: what stands behind its last `/`.
pub open spec fn file_name(p: Seq<char>) -> Seq<char> {
    p.subrange(last_index(p, '/', p.len() as int) + 1, p.len() as int)
}

/// The path without its last component; `None` for the empty path and for
/// `/`.
pub open spec fn parent(p: Seq<char>) -> Option<Seq<char>> {
    let i = last_index(p, '/', p.len() as int);
    if p.len() == 0 || p == seq!['/'] {
        None
    } else if i < 0 {
        Some(Seq::empty())
    } else if i == 0 {
        Some(seq!['/'])
    } else {
        Some(p.subrange(0, i))
    }
}

/// The directory of the path: its parent, and the empty path where it has
/// none.
pub open spec fn directory(p: Seq<char>) -> Seq<char> {
    match parent(p) {
        Some(dir) => dir,
        None => Seq::empty(),
    }
}

/// The extension of the path: what stands behind the last `.` of its file
/// name. A file name without a `.`, one whose only `.` comes first, and `..`
/// have none.
pub open spec fn extension(p: Seq<char>) -> Option<Seq<char>> {
    let f = file_name(p);
    let d = last_index(f, '.', f.len() as int);
    if d <= 0 || f == seq!['.', '.'] {
        None
    } else {
        Some(f.subrange(d + 1, f.len() as int))
    }
}

/// The path without its extension and the `.` before it.
pub open spec fn stem_path(p: Seq<char>) -> Seq<char> {
    match extension(p) {
        Some(ext) => p.subrange(0, p.len() - ext.len() - 1),
        None => p,
    }
}

/// The path `b` below the path `a`. A `b` that begins with `/` stands for
/// itself, and an empty path adds nothing.
pub open spec fn joined(a: Seq<char>, b: Seq<char>) -> Seq<char> {
    if b.len() > 0 && b[0] == '/' {
        b
    } else if a.len() == 0 {
        b
    } else if b.len() == 0 {
        a
    } else if a.last() == '/' {
        a + b
    } else {
        a + seq!['/'] + b
    }
}

/// Does `p` begin with the characters of `prefix`?
pub open spec fn begins_with(p: Seq<char>, prefix: Seq<char>) -> bool {
    prefix.len() <= p.len() && p.subrange(0, prefix.len() as int) == prefix
}

/// The path `p` as seen from the directory `root`; `None` where `p` does not
/// lie in `root`.
pub open spec fn stripped(p: Seq<char>, root: Seq<char>) -> Option<Seq<char>> {
    if !begins_with(p, root) {
        None
    } else if root.len() == 0 {
        if p.len() > 0 && p[0] == '/' {
            None
        } else {
            Some(p)
        }
    } else if p.len() == root.len() {
        Some(Seq::empty())
    } else if root.last() == '/' {
        Some(p.subrange(root.len() as int, p.len() as int))
    } else if p[root.len() as int] == '/' {
        Some(p.subrange(root.len() as int + 1, p.len() as int))
    } else {
        None
    }
}

/// The number of `/` at the beginning of `s`, counted from the index `i`.
pub open spec fn leading_slashes(s: Seq<char>, i: int) -> int
    decreases s.len() - i,
{
    if 0 <= i < s.len() && s[i] == '/' {
        1 + leading_slashes(s, i + 1)
    } else {
        0
    }
}

/// The number of `/` at the end of the first `n` characters of `s`, not
/// counting the first `lo` characters.
pub open spec fn trailing_slashes(s: Seq<char>, lo: int, n: int) -> int
    decreases n,
{
    if 0 <= lo < n <= s.len() && s[n - 1] == '/' {
        1 + trailing_slashes(s, lo, n - 1)
    } else {
        0
    }
}

/// The text without the `/` at its beginning and at its end.
pub open spec fn trimmed(s: Seq<char>) -> Seq<char> {
    let lo = leading_slashes(s, 0);
    let hi = s.len() - trailing_slashes(s, lo, s.len() as int);
    s.subrange(lo, hi)
}

fn last_index_in(chars: &Vec<char>, c: char, n: usize) -> (r: Option<usize>)
    requires
        n <= chars@.len(),
    ensures
        match r {
            Some(i) => last_index(chars@, c, n as int) == i && i < n && chars@[i as int] == c,
            None => last_index(chars@, c, n as int) == -1,
        },
{
    let mut i: usize = n;
    while i > 0
        invariant
            i <= n <= chars@.len(),
            last_index(chars@, c, n as int) == last_index(chars@, c, i as int),
        decreases i,
    {
        if chars[i - 1] == c {
            return Some(i - 1);
        }
        i -= 1;
    }
    None
}

/// The index at which the file name of the path begins.
fn file_name_start(chars: &Vec<char>) -> (r: usize)
    ensures
        r == last_index(chars@, '/', chars@.len() as int) + 1,
        r <= chars@.len(),
{
    match last_index_in(chars, '/', chars.len()) {
        Some(i) => i + 1,
        None => 0,
    }
}

/// The last component of the path.
pub fn file_name_of(p: &str) -> (r: String)
    ensures
        r@ == file_name(p@),
{
    let chars = chars_of(p);
    let start = file_name_start(&chars);
    string_of(&chars, start, chars.len())
}

/// The path without its last component.
pub fn parent_of(p: &str) -> (r: Option<String>)
    ensures
        match r {
            Some(dir) => parent(p@) == Some(dir@),
            None => parent(p@) is None,
        },
{
    let chars = chars_of(p);
    if chars.len() == 0 {
        return None;
    }
    if chars.len() == 1 && chars[0] == '/' {
        assert(p@ =~= seq!['/']);
        return None;
    }
    assert(p@ != seq!['/']) by {
        if p@ == seq!['/'] {
            assert(p@.len() == 1);
            assert(p@[0] == '/');
        }
    }
    match last_index_in(&chars, '/', chars.len()) {
        None => Some(String::new()),
        Some(i) => {
            if i == 0 {
                let r = string_of(&chars, 0, 1);
                assert(r@ =~= seq!['/']);
                Some(r)
            } else {
                Some(string_of(&chars, 0, i))
            }
        },
    }
}

/// The directory of the path.
pub fn directory_of(p: &str) -> (r: String)
    ensures
        r@ == directory(p@),
{
    match parent_of(p) {
        Some(dir) => dir,
        None => String::new(),
    }
}

/// The index of the `.` before the extension of the path.
fn extension_dot(chars: &Vec<char>) -> (r: Option<usize>)
    ensures
        match r {
            Some(d) => {
                &&& extension(chars@) == Some(chars@.subrange(d + 1, chars@.len() as int))
                &&& d < chars@.len()
            },
            None => extension(chars@) is None,
        },
{
    let start = file_name_start(chars);
    let len = chars.len();
    let ghost f = file_name(chars@);
    proof {
        assert(f.len() == len - start);
        lemma_dot_in_name(chars@, start as int, len as int);
    }
    if len - start == 2 && chars[start] == '.' && chars[start + 1] == '.' {
        assert(f =~= seq!['.', '.']);
        return None;
    }
    assert(f != seq!['.', '.']) by {
        if f == seq!['.', '.'] {
            assert(f.len() == 2);
            assert(f[0] == '.' && f[1] == '.');
        }
    }
    let mut i: usize = len;
    #[verifier::loop_isolation(false)]
    while i > start
        invariant
            start <= i <= len,
            len == chars@.len(),
            f == chars@.subrange(start as int, len as int),
            last_index(f, '.', f.len() as int) == last_index(f, '.', i - start),
        decreases i,
    {
        if chars[i - 1] == '.' {
            assert(f[i - 1 - start] == '.');
            if i - 1 == start {
                return None;
            }
            assert(f.subrange(i - start, f.len() as int) =~= chars@.subrange(
                i as int,
                len as int,
            ));
            return Some(i - 1);
        }
        assert(f[i - 1 - start] != '.');
        i -= 1;
    }
    None
}

/// The file name of a path is what stands behind the index `start`.
proof fn lemma_dot_in_name(p: Seq<char>, start: int, len: int)
    requires
        start == last_index(p, '/', p.len() as int) + 1,
        len == p.len(),
    ensures
        0 <= start <= len,
        file_name(p) == p.subrange(start, len),
{
    lemma_last_index(p, '/', p.len() as int);
}

/// The extension of the path.
pub fn extension_of(p: &str) -> (r: Option<String>)
    ensures
        match r {
            Some(ext) => extension(p@) == Some(ext@),
            None => extension(p@) is None,
        },
{
    let chars = chars_of(p);
    let len = chars.len();
    match extension_dot(&chars) {
        Some(d) => Some(string_of(&chars, d + 1, len)),
        None => None,
    }
}

/// The path without its extension and the `.` before it.
pub fn without_extension(p: &str) -> (r: String)
    ensures
        r@ == stem_path(p@),
{
    let chars = chars_of(p);
    match extension_dot(&chars) {
        Some(d) => {
            let r = string_of(&chars, 0, d);
            r
        },
        None => {
            let r = string_of(&chars, 0, chars.len());
            assert(r@ =~= p@);
            r
        },
    }
}

/// The path `b` below the path `a`.
pub fn join(a: &str, b: &str) -> (r: String)
    ensures
        r@ == joined(a@, b@),
{
    let x = chars_of(a);
    let y = chars_of(b);
    let mut out = String::new();
    if y.len() > 0 && y[0] == '/' {
        out.append(b);
        assert(out@ =~= b@);
    } else if x.len() == 0 {
        out.append(b);
        assert(out@ =~= b@);
    } else if y.len() == 0 {
        out.append(a);
        assert(out@ =~= a@);
    } else if x[x.len() - 1] == '/' {
        out.append(a);
        out.append(b);
        assert(out@ =~= a@ + b@);
    } else {
        out.append(a);
        out.push('/');
        out.append(b);
        assert(out@ =~= a@ + seq!['/'] + b@);
    }
    out
}

fn begins_with_chars(p: &Vec<char>, prefix: &Vec<char>) -> (r: bool)
    ensures
        r == begins_with(p@, prefix@),
{
    if prefix.len() > p.len() {
        return false;
    }
    let mut i: usize = 0;
    while i < prefix.len()
        invariant
            i <= prefix.len() <= p.len(),
            forall|k: int| 0 <= k < i ==> p@[k] == prefix@[k],
        decreases prefix.len() - i,
    {
        if p[i] != prefix[i] {
            assert(p@.subrange(0, prefix@.len() as int)[i as int] != prefix@[i as int]);
            return false;
        }
        i += 1;
    }
    assert(p@.subrange(0, prefix@.len() as int) =~= prefix@);
    true
}

/// The path `p` as seen from the directory `root`.
pub fn strip_prefix(p: &str, root: &str) -> (r: Option<String>)
    ensures
        match r {
            Some(rest) => stripped(p@, root@) == Some(rest@),
            None => stripped(p@, root@) is None,
        },
{
    let x = chars_of(p);
    let y = chars_of(root);
    if !begins_with_chars(&x, &y) {
        return None;
    }
    if y.len() == 0 {
        if x.len() > 0 && x[0] == '/' {
            return None;
        }
        let r = string_of(&x, 0, x.len());
        assert(r@ =~= p@);
        return Some(r);
    }
    if x.len() == y.len() {
        return Some(String::new());
    }
    if y[y.len() - 1] == '/' {
        return Some(string_of(&x, y.len(), x.len()));
    }
    if x[y.len()] == '/' {
        return Some(string_of(&x, y.len() + 1, x.len()));
    }
    None
}

/// The text without the `/` at its beginning and at its end.
pub fn trim_slashes(s: &str) -> (r: String)
    ensures
        r@ == trimmed(s@),
{
    let chars = chars_of(s);
    let len = chars.len();
    let mut lo: usize = 0;
    while lo < len && chars[lo] == '/'
        invariant
            lo <= len,
            len == chars@.len(),
            leading_slashes(chars@, 0) == lo + leading_slashes(chars@, lo as int),
        decreases len - lo,
    {
        lo += 1;
    }
    let mut hi: usize = len;
    while hi > lo && chars[hi - 1] == '/'
        invariant
            lo <= hi <= len,
            len == chars@.len(),
            trailing_slashes(chars@, lo as int, len as int) == (len - hi) + trailing_slashes(
                chars@,
                lo as int,
                hi as int,
            ),
        decreases hi,
    {
        hi -= 1;
    }
    string_of(&chars, lo, hi)
}

/// Does the text begin with the character `c`?
pub fn begins_with_char(s: &str, c: char) -> (r: bool)
    ensures
        r == (s@.len() > 0 && s@[0] == c),
{
    let chars = chars_of(s);
    chars.len() > 0 && chars[0] == c
}

} // verus!
