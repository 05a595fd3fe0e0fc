//! The source files of a site: what kind each is, which of them are pages,
//! which file answers a request, and where a file goes in the output.

use vstd::prelude::*;

use crate::path::begins_with_char;
use crate::path::directory;
use crate::path::directory_of;
use crate::path::extension;
use crate::path::extension_of;
use crate::path::file_name;
use crate::path::file_name_of;
use crate::path::join;
use crate::path::joined;
use crate::path::parent;
use crate::path::parent_of;
use crate::path::stem_path;
use crate::path::strip_prefix;
use crate::path::stripped;
use crate::path::without_extension;
use crate::text::str_eq;

verus! {

/// The kind of a source file, told by its extension.
#[derive(Clone, Copy, PartialEq, Eq, Debug, Structural)]
pub enum SrcKind {
    Jsx,
    Mdx,
    Js,
    Css,
    Other,
}

/// The kind of a file with the extension `ext`.
pub open spec fn kind_of(ext: Option<Seq<char>>) -> SrcKind {
    match ext {
        Some(e) => if e == "jsx"@ || e == "tsx"@ {
            SrcKind::Jsx
        } else if e == "mdx"@ || e == "md"@ {
            SrcKind::Mdx
        } else if e == "js"@ || e == "ts"@ {
            SrcKind::Js
        } else if e == "css"@ {
            SrcKind::Css
        } else {
            SrcKind::Other
        },
        None => SrcKind::Other,
    }
}

impl SrcKind {
    /// The kind of the file at `path`.
    pub fn from(path: &str) -> (r: SrcKind)
        ensures
            r == kind_of(extension(path@)),
    {
        match extension_of(path) {
            Some(ext) => {
                let e = ext.as_str();
                if str_eq(e, "jsx") || str_eq(e, "tsx") {
                    SrcKind::Jsx
                } else if str_eq(e, "mdx") || str_eq(e, "md") {
                    SrcKind::Mdx
                } else if str_eq(e, "js") || str_eq(e, "ts") {
                    SrcKind::Js
                } else if str_eq(e, "css") {
                    SrcKind::Css
                } else {
                    SrcKind::Other
                }
            },
            None => SrcKind::Other,
        }
    }

    /// Is a file of this kind rendered as a page?
    pub fn is_page(&self) -> (r: bool)
        ensures
            r == (*self == SrcKind::Jsx || *self == SrcKind::Mdx),
    {
        matches!(self, SrcKind::Jsx) || matches!(self, SrcKind::Mdx)
    }
}

/// One source file.
#[derive(Debug, PartialEq, Eq)]
pub struct SrcFile {
    /// The path of the file.
    pub path: String,
    /// The kind of the file.
    pub kind: SrcKind,
    /// The file name begins with `_`: the file is no page of its own.
    pub underscore: bool,
    /// The file name without its extension is `_`: the file makes the pages
    /// of its directory.
    pub generator: bool,
}

impl Clone for SrcFile {
    fn clone(&self) -> (r: Self)
        ensures
            r == *self,
    {
        SrcFile {
            path: self.path.clone(),
            kind: self.kind,
            underscore: self.underscore,
            generator: self.generator,
        }
    }
}

/// What `SrcFile::from` tells of the file at `path`.
pub open spec fn described(f: SrcFile, path: Seq<char>) -> bool {
    &&& f.path@ == path
    &&& f.kind == kind_of(extension(path))
    &&& f.underscore == (file_name(path).len() > 0 && file_name(path)[0] == '_')
    &&& f.generator == (file_name(stem_path(path)) == "_"@)
}

impl SrcFile {
    /// The source file at `path`.
    pub fn from(path: String) -> (r: SrcFile)
        ensures
            r.path == path,
            described(r, path@),
    {
        let kind = SrcKind::from(path.as_str());
        let name = file_name_of(path.as_str());
        let underscore = begins_with_char(name.as_str(), '_');
        let stem = without_extension(path.as_str());
        let stem_name = file_name_of(stem.as_str());
        let generator = str_eq(stem_name.as_str(), "_");
        SrcFile { path, kind, underscore, generator }
    }
}

/// Which files of a site are asked for.
#[derive(Clone, Copy, PartialEq, Eq, Debug, Structural)]
pub enum Wanted {
    /// The files that are rendered as pages of their own.
    Pages,
    /// The files that make the pages of their directory.
    Generators,
    /// The files that are copied as they are.
    Assets,
}

/// Is `f` among the files that `want` asks for?
pub open spec fn wanted(f: SrcFile, want: Wanted) -> bool {
    let page_kind = f.kind == SrcKind::Jsx || f.kind == SrcKind::Mdx;
    match want {
        Wanted::Pages => page_kind && !f.underscore,
        Wanted::Generators => page_kind && f.generator,
        Wanted::Assets => !page_kind,
    }
}

/// How a request path is held against a source file.
#[derive(Clone, Copy, PartialEq, Eq, Debug, Structural)]
pub enum Stage {
    /// The path names the file.
    Direct,
    /// The path names the file without its extension.
    Extensionless,
    /// The path names the directory of an `index` file.
    Index,
    /// The directory of the path holds a generator.
    Generator,
}

/// The path that the file must have, without its extension from the second
/// stage on, to answer a request for `resolved` at the stage `stage`.
pub open spec fn target(resolved: Seq<char>, stage: Stage) -> Seq<char> {
    match stage {
        Stage::Direct => resolved,
        Stage::Extensionless => resolved,
        Stage::Index => joined(resolved, "index"@),
        Stage::Generator => joined(
            match parent(resolved) {
                Some(dir) => dir,
                None => resolved,
            },
            "_"@,
        ),
    }
}

/// Does the file at `path` answer a request for `resolved` at the stage
/// `stage`?
pub open spec fn answers(path: Seq<char>, resolved: Seq<char>, stage: Stage) -> bool {
    match stage {
        Stage::Direct => path == resolved,
        _ => stem_path(path) == target(resolved, stage),
    }
}

/// The index of the first of the first `n` files that answers at `stage`.
pub open spec fn first_answer(
    entries: Seq<SrcFile>,
    resolved: Seq<char>,
    stage: Stage,
    n: int,
) -> Option<int>
    decreases n,
{
    if n <= 0 {
        None
    } else {
        match first_answer(entries, resolved, stage, n - 1) {
            Some(i) => Some(i),
            None => if answers(entries[n - 1].path@, resolved, stage) {
                Some(n - 1)
            } else {
                None
            },
        }
    }
}

/// The index of the file that answers a request for `resolved`: the first
/// file of the first stage at which any file answers.
pub open spec fn resolution(entries: Seq<SrcFile>, resolved: Seq<char>) -> Option<int> {
    let n = entries.len() as int;
    match first_answer(entries, resolved, Stage::Direct, n) {
        Some(i) => Some(i),
        None => match first_answer(entries, resolved, Stage::Extensionless, n) {
            Some(i) => Some(i),
            None => match first_answer(entries, resolved, Stage::Index, n) {
                Some(i) => Some(i),
                None => first_answer(entries, resolved, Stage::Generator, n),
            },
        },
    }
}

/// `first_answer` names a file that answers, and no file before it does.
pub proof fn lemma_first_answer(entries: Seq<SrcFile>, resolved: Seq<char>, stage: Stage, n: int)
    requires
        0 <= n <= entries.len(),
    ensures
        match first_answer(entries, resolved, stage, n) {
            Some(i) => 0 <= i < n && answers(entries[i].path@, resolved, stage) && forall|k: int|
                0 <= k < i ==> !answers(#[trigger] entries[k].path@, resolved, stage),
            None => forall|k: int|
                0 <= k < n ==> !answers(#[trigger] entries[k].path@, resolved, stage),
        },
    decreases n,
{
    if n > 0 {
        lemma_first_answer(entries, resolved, stage, n - 1);
    }
}

/// Why a path of the site could not be worked out.
#[derive(Clone, Copy, PartialEq, Eq, Debug, Structural)]
pub enum PathError {
    /// The file does not lie in the root of the site.
    OutsideRoot,
}

/// The path that stands for the page at `path`: the path without its
/// extension, and the directory of an `index` page.
pub open spec fn page_path(path: Seq<char>) -> Seq<char> {
    let stem = stem_path(path);
    if file_name(stem) == "index"@ {
        directory(stem)
    } else {
        stem
    }
}

/// The path of a file inside the site, given its path `relative` to the
/// root: the page path of a page, and the path of any other file.
pub open spec fn site_path_of(kind: SrcKind, relative: Seq<char>) -> Seq<char> {
    if kind == SrcKind::Jsx || kind == SrcKind::Mdx {
        page_path(relative)
    } else {
        relative
    }
}

/// The path of the output of a file below the directory `to`, given its path
/// `relative` to the root: a page becomes the `index.html` of the directory
/// named by its site path, any other file keeps its path.
pub open spec fn out_path_of(kind: SrcKind, relative: Seq<char>, to: Seq<char>) -> Seq<char> {
    if kind == SrcKind::Jsx || kind == SrcKind::Mdx {
        joined(to, joined(page_path(relative), "index.html"@))
    } else {
        joined(to, relative)
    }
}

/// The path that stands for the page at `path`.
pub fn page_path_of(path: &str) -> (r: String)
    ensures
        r@ == page_path(path@),
{
    let stem = without_extension(path);
    let name = file_name_of(stem.as_str());
    if str_eq(name.as_str(), "index") {
        directory_of(stem.as_str())
    } else {
        stem
    }
}

/// The directory, inside the site, of the generator at `path`: the parent of
/// the path as seen from `root`. The pages that the generator makes lie in
/// it. `None` where the path does not lie in `root` or has no parent.
pub open spec fn generator_dir_of(path: Seq<char>, root: Seq<char>) -> Option<Seq<char>> {
    match stripped(path, root) {
        Some(relative) => parent(relative),
        None => None,
    }
}

/// The directory, inside the site, of the generator at `path`.
pub fn generator_dir(path: &str, root: &str) -> (r: Option<String>)
    ensures
        match r {
            Some(dir) => generator_dir_of(path@, root@) == Some(dir@),
            None => generator_dir_of(path@, root@) is None,
        },
{
    match strip_prefix(path, root) {
        Some(relative) => parent_of(relative.as_str()),
        None => None,
    }
}

/// The source files below the root of a site.
#[derive(Debug)]
pub struct SrcFs {
    root: String,
    entries: Vec<SrcFile>,
}

impl SrcFs {
    /// The root of the site.
    pub closed spec fn root_text(&self) -> Seq<char> {
        self.root@
    }

    /// The files, in the order in which they were found.
    pub closed spec fn files(&self) -> Seq<SrcFile> {
        self.entries@
    }

    /// The files of a site with the root `root`, none found yet.
    pub fn new(root: &str) -> (r: SrcFs)
        ensures
            r.root_text() == root@,
            r.files() == Seq::<SrcFile>::empty(),
    {
        SrcFs { root: root.to_owned(), entries: Vec::new() }
    }

    /// A copy of the root of the site.
    pub fn root(&self) -> (r: String)
        ensures
            r@ == self.root_text(),
    {
        self.root.clone()
    }

    /// Takes the files at `paths` as the files of the site, in their order.
    pub fn scan(&mut self, paths: Vec<String>)
        ensures
            final(self).root_text() == old(self).root_text(),
            final(self).files().len() == paths@.len(),
            forall|i: int|
                0 <= i < paths@.len() ==> described(#[trigger] final(self).files()[i], paths@[i]@),
    {
        let mut entries: Vec<SrcFile> = Vec::new();
        let mut i: usize = 0;
        while i < paths.len()
            invariant
                i <= paths.len(),
                entries@.len() == i,
                forall|k: int| 0 <= k < i ==> described(#[trigger] entries@[k], paths@[k]@),
            decreases paths.len() - i,
        {
            entries.push(SrcFile::from(paths[i].clone()));
            i += 1;
        }
        self.entries = entries;
    }

    /// The files.
    pub fn iter(&self) -> (r: &Vec<SrcFile>)
        ensures
            r@ == self.files(),
    {
        &self.entries
    }

    /// Copies of the files that `want` asks for, in their order.
    pub fn select(&self, want: Wanted) -> (r: Vec<SrcFile>)
        ensures
            r@ == self.files().filter(|f: SrcFile| wanted(f, want)),
    {
        let mut out: Vec<SrcFile> = Vec::new();
        let mut i: usize = 0;
        let ghost all = self.entries@;
        let ghost keep = |f: SrcFile| wanted(f, want);
        proof {
            reveal(Seq::filter);
            assert(all.take(0) =~= Seq::<SrcFile>::empty());
        }
        while i < self.entries.len()
            invariant
                i <= self.entries.len(),
                all == self.entries@,
                keep == (|f: SrcFile| wanted(f, want)),
                out@ == all.take(i as int).filter(keep),
            decreases self.entries.len() - i,
        {
            let f = &self.entries[i];
            let page_kind = f.kind.is_page();
            let take = match want {
                Wanted::Pages => page_kind && !f.underscore,
                Wanted::Generators => page_kind && f.generator,
                Wanted::Assets => !page_kind,
            };
            proof {
                reveal(Seq::filter);
                assert(all.take(i as int + 1).drop_last() =~= all.take(i as int));
            }
            if take {
                out.push(f.clone());
            }
            i += 1;
        }
        proof {
            assert(all.take(i as int) =~= all);
        }
        out
    }

    /// Copies of the files that are rendered as pages of their own.
    pub fn iter_pages(&self) -> (r: Vec<SrcFile>)
        ensures
            r@ == self.files().filter(|f: SrcFile| wanted(f, Wanted::Pages)),
    {
        self.select(Wanted::Pages)
    }

    /// Copies of the files that make the pages of their directory.
    pub fn iter_generators(&self) -> (r: Vec<SrcFile>)
        ensures
            r@ == self.files().filter(|f: SrcFile| wanted(f, Wanted::Generators)),
    {
        self.select(Wanted::Generators)
    }

    /// Copies of the files that are copied as they are.
    pub fn iter_assets(&self) -> (r: Vec<SrcFile>)
        ensures
            r@ == self.files().filter(|f: SrcFile| wanted(f, Wanted::Assets)),
    {
        self.select(Wanted::Assets)
    }

    fn first_at(&self, resolved: &str, stage: Stage) -> (r: Option<usize>)
        ensures
            match r {
                Some(i) => first_answer(
                    self.files(),
                    resolved@,
                    stage,
                    self.files().len() as int,
                ) == Some(i as int) && i < self.files().len(),
                None => first_answer(self.files(), resolved@, stage, self.files().len() as int)
                    is None,
            },
    {
        let wanted_path = match stage {
            Stage::Direct => resolved.to_owned(),
            Stage::Extensionless => resolved.to_owned(),
            Stage::Index => join(resolved, "index"),
            Stage::Generator => match parent_of(resolved) {
                Some(dir) => join(dir.as_str(), "_"),
                None => join(resolved, "_"),
            },
        };
        assert(wanted_path@ == target(resolved@, stage));
        let mut i: usize = 0;
        while i < self.entries.len()
            invariant
                i <= self.entries.len(),
                wanted_path@ == target(resolved@, stage),
                first_answer(self.entries@, resolved@, stage, i as int) is None,
            decreases self.entries.len() - i,
        {
            let hit = match stage {
                Stage::Direct => str_eq(self.entries[i].path.as_str(), wanted_path.as_str()),
                _ => {
                    let stem = without_extension(self.entries[i].path.as_str());
                    str_eq(stem.as_str(), wanted_path.as_str())
                },
            };
            assert(hit == answers(self.entries@[i as int].path@, resolved@, stage));
            if hit {
                proof {
                    lemma_first_answer_stays(
                        self.entries@,
                        resolved@,
                        stage,
                        i as int + 1,
                        self.entries@.len() as int,
                    );
                }
                return Some(i);
            }
            i += 1;
        }
        None
    }

    /// The file that answers a request for `path`, a path inside the site:
    /// the file with that path, else the file with that path and an
    /// extension, else the `index` file of the directory with that path, else
    /// the generator of the directory that holds the path. Among several files
    /// the first one answers.
    pub fn find(&self, path: &str) -> (r: Option<SrcFile>)
        ensures
            match r {
                Some(f) => resolution(self.files(), joined(self.root_text(), path@)) is Some
                    && f == self.files()[resolution(
                    self.files(),
                    joined(self.root_text(), path@),
                ).unwrap()],
                None => resolution(self.files(), joined(self.root_text(), path@)) is None,
            },
    {
        let resolved = join(self.root.as_str(), path);
        let found = match self.first_at(resolved.as_str(), Stage::Direct) {
            Some(i) => Some(i),
            None => match self.first_at(resolved.as_str(), Stage::Extensionless) {
                Some(i) => Some(i),
                None => match self.first_at(resolved.as_str(), Stage::Index) {
                    Some(i) => Some(i),
                    None => self.first_at(resolved.as_str(), Stage::Generator),
                },
            },
        };
        match found {
            Some(i) => Some(self.entries[i].clone()),
            None => None,
        }
    }

    /// The path of `src` inside the site.
    pub fn site_path(&self, src: &SrcFile) -> (r: Result<String, PathError>)
        ensures
            match stripped(src.path@, self.root_text()) {
                None => r == Err::<String, PathError>(PathError::OutsideRoot),
                Some(relative) => r is Ok && r->Ok_0@ == site_path_of(src.kind, relative),
            },
    {
        let relative = match strip_prefix(src.path.as_str(), self.root.as_str()) {
            Some(relative) => relative,
            None => {
                return Err(PathError::OutsideRoot);
            },
        };
        if src.kind.is_page() {
            Ok(page_path_of(relative.as_str()))
        } else {
            Ok(relative)
        }
    }

    /// The path of the output of `src` below the directory `to`.
    pub fn out_fpath(&self, src: &SrcFile, to: &str) -> (r: Result<String, PathError>)
        ensures
            match stripped(src.path@, self.root_text()) {
                None => r == Err::<String, PathError>(PathError::OutsideRoot),
                Some(relative) => r is Ok && r->Ok_0@ == out_path_of(src.kind, relative, to@),
            },
    {
        let relative = match strip_prefix(src.path.as_str(), self.root.as_str()) {
            Some(relative) => relative,
            None => {
                return Err(PathError::OutsideRoot);
            },
        };
        if src.kind.is_page() {
            let site = page_path_of(relative.as_str());
            let below = join(site.as_str(), "index.html");
            Ok(join(to, below.as_str()))
        } else {
            Ok(join(to, relative.as_str()))
        }
    }
}

/// A file that answers among the first `n` files is the answer among the
/// first `m` files too.
pub proof fn lemma_first_answer_stays(
    entries: Seq<SrcFile>,
    resolved: Seq<char>,
    stage: Stage,
    n: int,
    m: int,
)
    requires
        0 <= n <= m,
        first_answer(entries, resolved, stage, n) is Some,
    ensures
        first_answer(entries, resolved, stage, m) == first_answer(entries, resolved, stage, n),
    decreases m - n,
{
    if n < m {
        lemma_first_answer_stays(entries, resolved, stage, n, m - 1);
    }
}

} // verus!
