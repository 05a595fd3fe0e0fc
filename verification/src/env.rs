//! What an environment computes around the scripting engine: the id of a
//! page, the scripts that start a page in the browser, and the source of the
//! client bundle.

use vstd::prelude::*;
use vstd::utf8::encode_utf8;

use crate::path::join;
use crate::path::joined;
use crate::text::chars_of;

verus! {

/// The BLAKE2b digest of `data` with an output of six bytes.
pub uninterp spec fn blake2b_48(data: Seq<u8>) -> Seq<u8>;

/// The Base58 text of `bytes` in the Bitcoin alphabet.
pub uninterp spec fn base58(bytes: Seq<u8>) -> Seq<char>;

/// `Blake2b::<U6>::digest` of the `blake2` crate: the digest of `data`, which
/// depends on `data` alone.
#[verifier::external_body]
fn blake2b_48_digest(data: &[u8]) -> (r: Vec<u8>)
    ensures
        r@ == blake2b_48(data@),
{
    <blake2::Blake2b<blake2::digest::consts::U6> as blake2::Digest>::digest(data).to_vec()
}

/// `bs58::encode(..).into_string()`: the Base58 text of `bytes`, which depends
/// on `bytes` alone.
#[verifier::external_body]
fn base58_encode(bytes: &Vec<u8>) -> (r: String)
    ensures
        r@ == base58(bytes@),
{
    bs58::encode(bytes).into_string()
}

/// `c` is an ASCII letter or digit.
pub open spec fn is_alphanumeric(c: char) -> bool {
    ('a' <= c && c <= 'z') || ('A' <= c && c <= 'Z') || ('0' <= c && c <= '9')
}

/// `n` samples of `rand::distributions::Alphanumeric` from the thread's
/// generator: `n` characters, each an ASCII letter or digit. Which ones is
/// left open.
#[verifier::external_body]
fn random_alphanumeric(n: usize) -> (r: String)
    ensures
        r@.len() == n,
        forall|i: int| 0 <= i < r@.len() ==> is_alphanumeric(#[trigger] r@[i]),
{
    rand::Rng::sample_iter(rand::thread_rng(), &rand::distributions::Alphanumeric)
        .take(n)
        .map(char::from)
        .collect()
}

/// The path `to_join` below the path `root`, as a script is handed it: an
/// empty `to_join` names the directory `root` itself, which is spelled with a
/// `/` at its end.
pub open spec fn joined_path(root: Seq<char>, to_join: Seq<char>) -> Seq<char> {
    if to_join.len() == 0 && root.len() > 0 && root.last() != '/' {
        root.push('/')
    } else {
        joined(root, to_join)
    }
}

/// The path `to_join` below the path `root`, as a script is handed it.
pub fn join_path(root: &str, to_join: &str) -> (r: String)
    ensures
        r@ == joined_path(root@, to_join@),
{
    if to_join.is_empty() {
        let chars = chars_of(root);
        if chars.len() > 0 && chars[chars.len() - 1] != '/' {
            let mut out = root.to_owned();
            out.push('/');
            return out;
        }
    }
    join(root, to_join)
}

/// `n` random ASCII letters and digits.
pub fn rand_string(n: usize) -> (r: String)
    ensures
        r@.len() == n,
        forall|i: int| 0 <= i < r@.len() ==> is_alphanumeric(#[trigger] r@[i]),
{
    random_alphanumeric(n)
}

/// The short name that stands for `text`: the Base58 text of its six-byte
/// BLAKE2b digest.
pub open spec fn hash_text(text: Seq<char>) -> Seq<char> {
    base58(blake2b_48(encode_utf8(text)))
}

/// The short name that stands for `text`. The id of a page is the short name
/// of its URL.
pub fn hash_string(text: &str) -> (r: String)
    ensures
        r@ == hash_text(text@),
{
    let digest = blake2b_48_digest(text.as_bytes());
    base58_encode(&digest)
}

/// The script that starts the page with the id `id` in the browser.
pub open spec fn page_script_text(id: Seq<char>) -> Seq<char> {
    "\n        import { page"@ + id
        + " as Page, run } from \"/index.js\"\n        run(Page, {})\n        "@
}

/// The script that starts the page with the id `id` in the browser.
pub fn page_script(id: &str) -> (r: String)
    ensures
        r@ == page_script_text(id@),
{
    let mut out = String::new();
    out.append("\n        import { page");
    out.append(id);
    out.append(" as Page, run } from \"/index.js\"\n        run(Page, {})\n        ");
    assert(out@ =~= page_script_text(id@));
    out
}

/// The script that starts a page made by a generator in the browser.
pub open spec fn generated_page_script_text(id: Seq<char>) -> Seq<char> {
    "\n            import { page"@ + id
        + " as Page, runScript } from \"/index.js\"\n            if (!(\"Deno\" in window)) {\n                if (Page.script) {\n                    Page.script()\n                }\n                runScript(Page())\n            }\n            "@
}

/// The script that starts a page made by a generator in the browser.
pub fn generated_page_script(id: &str) -> (r: String)
    ensures
        r@ == generated_page_script_text(id@),
{
    let mut out = String::new();
    out.append("\n            import { page");
    out.append(id);
    out.append(
        " as Page, runScript } from \"/index.js\"\n            if (!(\"Deno\" in window)) {\n                if (Page.script) {\n                    Page.script()\n                }\n                runScript(Page())\n            }\n            ",
    );
    assert(out@ =~= generated_page_script_text(id@));
    out
}

/// The line of the bundle source that exports the page with the id `id` from
/// the module at `url`.
pub open spec fn page_export_text(id: Seq<char>, url: Seq<char>) -> Seq<char> {
    "export { default as page"@ + id + " } from \""@ + url + "\"\n                "@
}

/// The line of the bundle source that exports the page with the id `id` from
/// the module at `url`.
pub fn page_export(id: &str, url: &str) -> (r: String)
    ensures
        r@ == page_export_text(id@, url@),
{
    let mut out = String::new();
    out.append("export { default as page");
    out.append(id);
    out.append(" } from \"");
    out.append(url);
    out.append("\"\n                ");
    assert(out@ =~= page_export_text(id@, url@));
    out
}

/// The line of the bundle source that exports `runScript` from the JSX
/// runtime at `runtime_url`.
pub open spec fn run_script_export_text(runtime_url: Seq<char>) -> Seq<char> {
    "export { runScript } from \""@ + runtime_url + "\""@
}

/// The line of the bundle source that exports `runScript` from the JSX
/// runtime at `runtime_url`.
pub fn run_script_export(runtime_url: &str) -> (r: String)
    ensures
        r@ == run_script_export_text(runtime_url@),
{
    let mut out = String::new();
    out.append("export { runScript } from \"");
    out.append(runtime_url);
    out.append("\"");
    assert(out@ =~= run_script_export_text(runtime_url@));
    out
}

/// The line of a served page's bundle source that imports `run` from the JSX
/// runtime at `runtime_url`.
pub open spec fn run_import_text(runtime_url: Seq<char>) -> Seq<char> {
    "import { run } from \""@ + runtime_url + "\"\n                            "@
}

/// The line of a served page's bundle source that imports `run` from the JSX
/// runtime at `runtime_url`.
pub fn run_import(runtime_url: &str) -> (r: String)
    ensures
        r@ == run_import_text(runtime_url@),
{
    let mut out = String::new();
    out.append("import { run } from \"");
    out.append(runtime_url);
    out.append("\"\n                            ");
    assert(out@ =~= run_import_text(runtime_url@));
    out
}

/// The part of a served page's bundle source that picks the page out of the
/// module at `url`, by the site path `path` where the module holds several,
/// and runs it.
pub open spec fn page_entry_text(url: Seq<char>, path: Seq<char>) -> Seq<char> {
    "\n                            import { default as mod } from \""@ + url
        + "\"\n\n                            let Page;\n                            if (typeof mod === \"function\") {\n                                Page = mod;\n                            } else {\n                                Page = mod[\""@
        + path
        + "\"];\n                            }\n\n                            run(Page, {})\n                            "@
}

/// The part of a served page's bundle source that picks the page out of the
/// module at `url` and runs it.
pub fn page_entry(url: &str, path: &str) -> (r: String)
    ensures
        r@ == page_entry_text(url@, path@),
{
    let mut out = String::new();
    out.append("\n                            import { default as mod } from \"");
    out.append(url);
    out.append(
        "\"\n\n                            let Page;\n                            if (typeof mod === \"function\") {\n                                Page = mod;\n                            } else {\n                                Page = mod[\"",
    );
    out.append(path);
    out.append(
        "\"];\n                            }\n\n                            run(Page, {})\n                            ",
    );
    assert(out@ =~= page_entry_text(url@, path@));
    out
}

/// The file name of the module that holds the bundle source, made from the
/// text `unique`.
pub open spec fn bundle_module_name_text(unique: Seq<char>) -> Seq<char> {
    "__"@ + unique + ".ts"@
}

/// The file name of the module that holds the bundle source, made from the
/// text `unique`.
pub fn bundle_module_name(unique: &str) -> (r: String)
    ensures
        r@ == bundle_module_name_text(unique@),
{
    let mut out = String::new();
    out.append("__");
    out.append(unique);
    out.append(".ts");
    assert(out@ =~= bundle_module_name_text(unique@));
    out
}

/// A file name for the module that holds the bundle source, made from eight
/// random letters and digits.
pub fn fresh_bundle_module_name() -> (r: String)
    ensures
        exists|unique: Seq<char>|
            unique.len() == 8 && (forall|i: int|
                0 <= i < unique.len() ==> is_alphanumeric(#[trigger] unique[i])) && r@
                == bundle_module_name_text(unique),
{
    let unique = random_alphanumeric(8);
    bundle_module_name(unique.as_str())
}

/// The source of the client bundle, which grows by one piece of code per
/// page.
#[derive(Debug)]
pub struct Bundler {
    code: String,
}

impl View for Bundler {
    type V = Seq<char>;

    closed spec fn view(&self) -> Seq<char> {
        self.code@
    }
}

impl Bundler {
    /// A bundler without code.
    pub fn new() -> (r: Self)
        ensures
            r@ == Seq::<char>::empty(),
    {
        Bundler { code: String::new() }
    }

    /// Appends `code`.
    pub fn push(&mut self, code: &str)
        ensures
            final(self)@ == old(self)@ + code@,
    {
        self.code.append(code)
    }

    /// Drops all code.
    pub fn clear(&mut self)
        ensures
            final(self)@ == Seq::<char>::empty(),
    {
        self.code = String::new();
    }

    /// The code pushed since the bundler was made or cleared.
    pub fn code(&self) -> (r: &str)
        ensures
            r@ == self@,
    {
        self.code.as_str()
    }
}

} // verus!
