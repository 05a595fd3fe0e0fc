//! The files of a site, each with its kind.

use vstd::prelude::*;

use crate::path::begins_with_char;
use crate::path::extension;
use crate::path::file_name;
use crate::path::file_name_of;
use crate::src_fs::SrcKind;
use crate::src_fs::kind_of;

verus! {

/// The kind of a file, told by its extension.
#[derive(Clone, Copy, PartialEq, Eq, Debug, Structural)]
pub enum FileKind {
    Jsx,
    Mdx,
    Js,
    Css,
    Other,
}

/// The kind of a file with the extension `ext`: `jsx` and `tsx` are JSX, `mdx`
/// and `md` are MDX, `js` and `ts` are scripts, `css` is a style sheet.
pub open spec fn file_kind_of(ext: Option<Seq<char>>) -> FileKind {
    match kind_of(ext) {
        SrcKind::Jsx => FileKind::Jsx,
        SrcKind::Mdx => FileKind::Mdx,
        SrcKind::Js => FileKind::Js,
        SrcKind::Css => FileKind::Css,
        SrcKind::Other => FileKind::Other,
    }
}

impl FileKind {
    /// The kind of the file at `path`.
    pub fn from(path: &str) -> (r: FileKind)
        ensures
            r == file_kind_of(extension(path@)),
    {
        match SrcKind::from(path) {
            SrcKind::Jsx => FileKind::Jsx,
            SrcKind::Mdx => FileKind::Mdx,
            SrcKind::Js => FileKind::Js,
            SrcKind::Css => FileKind::Css,
            SrcKind::Other => FileKind::Other,
        }
    }
}

/// One file of a site.
#[derive(Debug, PartialEq, Eq)]
pub struct File {
    /// The path of the file.
    pub path: String,
    /// The kind of the file.
    pub kind: FileKind,
    /// The file name begins with `_`.
    pub underscore: bool,
}

/// What `File::from` tells of the file at `path`.
pub open spec fn file_described(f: File, path: Seq<char>) -> bool {
    &&& f.path@ == path
    &&& f.kind == file_kind_of(extension(path))
    &&& f.underscore == (file_name(path).len() > 0 && file_name(path)[0] == '_')
}

impl File {
    /// The file at `path`.
    pub fn from(path: String) -> (r: File)
        ensures
            r.path == path,
            file_described(r, path@),
    {
        let kind = FileKind::from(path.as_str());
        let name = file_name_of(path.as_str());
        let underscore = begins_with_char(name.as_str(), '_');
        File { path, kind, underscore }
    }
}

/// The files below the root of a site.
#[derive(Debug)]
pub struct Fsys {
    root: String,
    /// The files, in the order in which they were found.
    pub entries: Vec<File>,
}

impl Fsys {
    /// The root of the site.
    pub closed spec fn root_text(&self) -> Seq<char> {
        self.root@
    }

    /// The files, in the order in which they were found.
    pub closed spec fn files(&self) -> Seq<File> {
        self.entries@
    }

    /// The site with the root `root` and the files at `paths`.
    pub fn new(root: &str, paths: Vec<String>) -> (r: Fsys)
        ensures
            r.root_text() == root@,
            r.files().len() == paths@.len(),
            forall|i: int|
                0 <= i < paths@.len() ==> file_described(#[trigger] r.files()[i], paths@[i]@),
    {
        let mut fs = Fsys { root: root.to_owned(), entries: Vec::new() };
        fs.scan(paths);
        fs
    }

    /// The files, in the order in which they were found.
    pub fn entries(&self) -> (r: &Vec<File>)
        ensures
            r@ == self.files(),
    {
        &self.entries
    }

    /// Takes the files at `paths` as the files of the site, in their order.
    pub fn scan(&mut self, paths: Vec<String>)
        ensures
            final(self).root_text() == old(self).root_text(),
            final(self).files().len() == paths@.len(),
            forall|i: int|
                0 <= i < paths@.len() ==> file_described(
                    #[trigger] final(self).files()[i],
                    paths@[i]@,
                ),
    {
        let mut entries: Vec<File> = Vec::new();
        let mut i: usize = 0;
        while i < paths.len()
            invariant
                i <= paths.len(),
                entries@.len() == i,
                forall|k: int| 0 <= k < i ==> file_described(#[trigger] entries@[k], paths@[k]@),
            decreases paths.len() - i,
        {
            entries.push(File::from(paths[i].clone()));
            i += 1;
        }
        self.entries = entries;
    }
}

} // verus!
