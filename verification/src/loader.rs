//! What the module loader decides before it hands a module to the scripting
//! engine: where the source comes from and whether it is compiled first.

use vstd::prelude::*;

use crate::path::extension;
use crate::path::extension_of;
use crate::text::str_eq;

verus! {

/// What a loader is made with.
#[derive(Debug)]
pub struct LoaderOptions {
    /// The module that JSX is compiled against.
    pub jsx_import_source: String,
}

impl Clone for LoaderOptions {
    fn clone(&self) -> (r: Self)
        ensures
            r == *self,
    {
        LoaderOptions { jsx_import_source: self.jsx_import_source.clone() }
    }
}

/// The media type of a module, as the scripting engine tells it from the
/// specifier.
#[derive(Clone, Copy, PartialEq, Eq, Debug, Structural)]
pub enum MediaType {
    JavaScript,
    Jsx,
    Mjs,
    Cjs,
    TypeScript,
    Mts,
    Cts,
    Dts,
    Dmts,
    Dcts,
    Tsx,
    Json,
    Wasm,
    TsBuildInfo,
    SourceMap,
    Unknown,
}

/// How the scripting engine is to read a module.
#[derive(Clone, Copy, PartialEq, Eq, Debug, Structural)]
pub enum ModuleType {
    JavaScript,
    Json,
}

/// A JSON module is read as JSON, every other module as a script.
pub fn module_type(media: MediaType) -> (r: ModuleType)
    ensures
        r == if media == MediaType::Json {
            ModuleType::Json
        } else {
            ModuleType::JavaScript
        },
{
    match media {
        MediaType::Json => ModuleType::Json,
        _ => ModuleType::JavaScript,
    }
}

/// Where the source of a module comes from.
#[derive(Clone, Copy, PartialEq, Eq, Debug, Structural)]
pub enum Fetch {
    /// It is read from the file that the specifier names.
    File,
    /// It is fetched from the address that the specifier names.
    Https,
}

/// The scheme of a specifier is neither `file` nor `https`.
#[derive(Clone, Copy, PartialEq, Eq, Debug, Structural)]
pub struct InvalidScheme;

/// Where the source of a module with the scheme `scheme` comes from.
pub fn fetch_of(scheme: &str) -> (r: Result<Fetch, InvalidScheme>)
    ensures
        r == if scheme@ == "file"@ {
            Ok::<Fetch, InvalidScheme>(Fetch::File)
        } else if scheme@ == "https"@ {
            Ok::<Fetch, InvalidScheme>(Fetch::Https)
        } else {
            Err::<Fetch, InvalidScheme>(InvalidScheme)
        },
{
    if str_eq(scheme, "file") {
        Ok(Fetch::File)
    } else if str_eq(scheme, "https") {
        Ok(Fetch::Https)
    } else {
        Err(InvalidScheme)
    }
}

/// What is done to the source of a module before the engine gets it.
#[derive(Clone, Copy, PartialEq, Eq, Debug, Structural)]
pub struct TranspilePlan {
    /// The source is MDX and is compiled to JSX first.
    pub markdown: bool,
    /// The media type that the source is parsed as.
    pub media: MediaType,
    /// The source is transpiled to plain JavaScript.
    pub transpile: bool,
}

/// The plan for a module at `path` whose media type is `media`.
///
/// A module with the extension `mdx` or `md` is MDX. A module of an unknown
/// media type is parsed as TSX. Every module is transpiled but plain
/// JavaScript in its three spellings.
pub open spec fn plan_for(path: Seq<char>, media: MediaType) -> TranspilePlan {
    let parsed = if media == MediaType::Unknown {
        MediaType::Tsx
    } else {
        media
    };
    TranspilePlan {
        markdown: extension(path) == Some("mdx"@) || extension(path) == Some("md"@),
        media: parsed,
        transpile: !(parsed == MediaType::JavaScript || parsed == MediaType::Cjs || parsed
            == MediaType::Mjs),
    }
}

/// The plan for a module at `path` whose media type is `media`.
pub fn transpile_plan(path: &str, media: MediaType) -> (r: TranspilePlan)
    ensures
        r == plan_for(path@, media),
{
    let markdown = match extension_of(path) {
        Some(ext) => str_eq(ext.as_str(), "mdx") || str_eq(ext.as_str(), "md"),
        None => false,
    };
    let parsed = match media {
        MediaType::Unknown => MediaType::Tsx,
        other => other,
    };
    let transpile = match parsed {
        MediaType::JavaScript => false,
        MediaType::Cjs => false,
        MediaType::Mjs => false,
        _ => true,
    };
    TranspilePlan { markdown, media: parsed, transpile }
}

/// The extension that a specifier without one is read with: the last of
/// `tsx`, `ts`, `jsx`, `js` for which a file exists.
pub fn pick_extension(tsx: bool, ts: bool, jsx: bool, js: bool) -> (r: Option<&'static str>)
    ensures
        match r {
            Some(ext) => ext@ == (if js {
                "js"@
            } else if jsx {
                "jsx"@
            } else if ts {
                "ts"@
            } else {
                "tsx"@
            }) && (tsx || ts || jsx || js),
            None => !(tsx || ts || jsx || js),
        },
{
    if js {
        Some("js")
    } else if jsx {
        Some("jsx")
    } else if ts {
        Some("ts")
    } else if tsx {
        Some("tsx")
    } else {
        None
    }
}

/// The sources that were handed to the loader under a specifier.
#[derive(Debug)]
pub struct Injected {
    entries: Vec<(String, String)>,
}

/// The code that was injected last under `url`.
pub open spec fn injected_code(entries: Seq<(Seq<char>, Seq<char>)>, url: Seq<char>) -> Option<
    Seq<char>,
>
    decreases entries.len(),
{
    if entries.len() == 0 {
        None
    } else if entries.last().0 == url {
        Some(entries.last().1)
    } else {
        injected_code(entries.drop_last(), url)
    }
}

impl View for Injected {
    type V = Seq<(Seq<char>, Seq<char>)>;

    closed spec fn view(&self) -> Seq<(Seq<char>, Seq<char>)> {
        Seq::new(self.entries@.len(), |i: int| (self.entries@[i].0@, self.entries@[i].1@))
    }
}

impl Injected {
    /// No source is injected.
    pub fn new() -> (r: Injected)
        ensures
            r@ == Seq::<(Seq<char>, Seq<char>)>::empty(),
    {
        let r = Injected { entries: Vec::new() };
        assert(r@ =~= Seq::<(Seq<char>, Seq<char>)>::empty());
        r
    }

    /// Hands over `code` as the source of the module at `url`.
    pub fn inject(&mut self, url: String, code: String)
        ensures
            final(self)@ == old(self)@.push((url@, code@)),
            injected_code(final(self)@, url@) == Some(code@),
            forall|other: Seq<char>|
                other != url@ ==> injected_code(final(self)@, other) == injected_code(
                    old(self)@,
                    other,
                ),
    {
        self.entries.push((url, code));
        proof {
            assert(self@ =~= old(self)@.push((url@, code@)));
            assert(self@.drop_last() =~= old(self)@);
        }
    }

    /// The source that was handed over last for the module at `url`.
    pub fn get_injected(&self, url: &str) -> (r: Option<String>)
        ensures
            match r {
                Some(code) => injected_code(self@, url@) == Some(code@),
                None => injected_code(self@, url@) is None,
            },
    {
        let mut i: usize = self.entries.len();
        proof {
            assert(self@.take(i as int) =~= self@);
        }
        while i > 0
            invariant
                i <= self.entries.len(),
                injected_code(self@, url@) == injected_code(self@.take(i as int), url@),
            decreases i,
        {
            proof {
                assert(self@.take(i as int).drop_last() =~= self@.take(i as int - 1));
            }
            if str_eq(self.entries[i - 1].0.as_str(), url) {
                return Some(self.entries[i - 1].1.clone());
            }
            i -= 1;
        }
        None
    }
}

} // verus!
