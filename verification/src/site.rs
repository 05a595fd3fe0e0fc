//! Where the pages of a site come from and where their output goes.

use vstd::prelude::*;

use crate::path::begins_with_char;
use crate::path::extension;
use crate::path::extension_of;
use crate::path::file_name;
use crate::path::file_name_of;
use crate::path::join;
use crate::path::joined;
use crate::path::strip_prefix;
use crate::path::stripped;
use crate::src_fs::PathError;
use crate::src_fs::page_path;
use crate::src_fs::page_path_of;
use crate::text::str_eq;

verus! {

/// The directory that stands for the page at `path`: the path without its
/// extension, and the directory of an `index` page.
pub fn page_dirname(path: &str) -> (r: String)
    ensures
        r@ == page_path(path@),
{
    page_path_of(path)
}

/// Is an entry of the walk part of the site? A directory is, unless it is
/// ignored; a file is where it is not ignored, its name does not begin with
/// `_`, and its extension is `tsx` or `jsx`.
pub open spec fn site_entry(path: Seq<char>, is_dir: bool, ignored: bool) -> bool {
    if ignored {
        false
    } else if is_dir {
        true
    } else if file_name(path).len() > 0 && file_name(path)[0] == '_' {
        false
    } else {
        extension(path) == Some("tsx"@) || extension(path) == Some("jsx"@)
    }
}

/// Is an entry of the walk part of the site?
pub fn is_site(path: &str, is_dir: bool, ignored: bool) -> (r: bool)
    ensures
        r == site_entry(path@, is_dir, ignored),
{
    if ignored {
        return false;
    }
    if is_dir {
        return true;
    }
    let name = file_name_of(path);
    if begins_with_char(name.as_str(), '_') {
        return false;
    }
    match extension_of(path) {
        Some(ext) => str_eq(ext.as_str(), "tsx") || str_eq(ext.as_str(), "jsx"),
        None => false,
    }
}

/// The path of the HTML file of the page at `path`, a file below `root`, in
/// the output directory `outdir`.
pub open spec fn page_out_path(path: Seq<char>, root: Seq<char>, outdir: Seq<char>) -> Result<
    Seq<char>,
    PathError,
> {
    match stripped(page_path(path), root) {
        None => Err(PathError::OutsideRoot),
        Some(relative) => Ok(joined(joined(outdir, relative), "index.html"@)),
    }
}

/// The path of the HTML file of the page at `path`, a file below `root`, in
/// the output directory `outdir`.
pub fn page_out_file(path: &str, root: &str, outdir: &str) -> (r: Result<String, PathError>)
    ensures
        match page_out_path(path@, root@, outdir@) {
            Ok(out) => r is Ok && r->Ok_0@ == out,
            Err(e) => r == Err::<String, PathError>(e),
        },
{
    let dir = page_dirname(path);
    match strip_prefix(dir.as_str(), root) {
        None => Err(PathError::OutsideRoot),
        Some(relative) => {
            let below = join(outdir, relative.as_str());
            Ok(join(below.as_str(), "index.html"))
        },
    }
}

} // verus!
