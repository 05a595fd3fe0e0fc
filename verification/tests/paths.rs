use areum::fs::File;
use areum::fs::FileKind;
use areum::fs::Fsys;
use areum::loader::fetch_of;
use areum::loader::module_type;
use areum::loader::pick_extension;
use areum::loader::transpile_plan;
use areum::loader::Fetch;
use areum::loader::Injected;
use areum::loader::InvalidScheme;
use areum::loader::LoaderOptions;
use areum::loader::MediaType;
use areum::loader::ModuleType;
use areum::loader::TranspilePlan;
use areum::path::begins_with_char;
use areum::path::directory_of;
use areum::path::extension_of;
use areum::path::file_name_of;
use areum::path::join;
use areum::path::parent_of;
use areum::path::strip_prefix;
use areum::path::trim_slashes;
use areum::path::without_extension;
use areum::site::is_site;
use areum::site::page_dirname;
use areum::site::page_out_file;
use areum::src_fs::generator_dir;
use areum::src_fs::page_path_of;
use areum::src_fs::PathError;
use areum::src_fs::SrcFile;
use areum::src_fs::SrcFs;
use areum::src_fs::SrcKind;
use areum::src_fs::Wanted;
use areum::text::chars_of;
use areum::text::str_eq;
use areum::text::string_of;
use areum::vfs::VFSys;
use areum::vfs::VFile;
use areum::vfs::VFileKind;

#[test]
fn text_helpers() {
    assert!(str_eq("héllo", "héllo"));
    assert!(!str_eq("hello", "hellO"));
    assert!(!str_eq("a", "ab"));
    assert!(str_eq("", ""));
    assert_eq!(chars_of("aé/"), vec!['a', 'é', '/']);
    assert_eq!(string_of(&vec!['a', 'é', '/'], 1, 3), "é/");
    assert_eq!(string_of(&vec!['a'], 1, 1), "");
}

#[test]
fn file_names() {
    assert_eq!(file_name_of("/a/b/c.txt"), "c.txt");
    assert_eq!(file_name_of("c.txt"), "c.txt");
    assert_eq!(file_name_of("/a/b/"), "");
    assert_eq!(file_name_of(""), "");
}

#[test]
fn parents() {
    assert_eq!(parent_of("/a/b/c.txt"), Some("/a/b".to_string()));
    assert_eq!(parent_of("index"), Some("".to_string()));
    assert_eq!(parent_of("/index"), Some("/".to_string()));
    assert_eq!(parent_of("/"), None);
    assert_eq!(parent_of(""), None);
}

#[test]
fn extensions() {
    assert_eq!(extension_of("/a/b.tar.gz"), Some("gz".to_string()));
    assert_eq!(extension_of("/a.b/c"), None);
    assert_eq!(extension_of(".gitignore"), None);
    assert_eq!(extension_of("a/.hidden.md"), Some("md".to_string()));
    assert_eq!(extension_of("name."), Some("".to_string()));
    assert_eq!(extension_of(".."), None);
    assert_eq!(extension_of("a/.."), None);
    assert_eq!(extension_of(""), None);
}

#[test]
fn paths_without_extension() {
    assert_eq!(without_extension("/a/b.tar.gz"), "/a/b.tar");
    assert_eq!(without_extension("/a.b/c"), "/a.b/c");
    assert_eq!(without_extension("/a/_.tsx"), "/a/_");
    assert_eq!(without_extension("name."), "name");
    assert_eq!(without_extension(".gitignore"), ".gitignore");
}

#[test]
fn joins() {
    assert_eq!(join("/site", "a/b"), "/site/a/b");
    assert_eq!(join("/site/", "a"), "/site/a");
    assert_eq!(join("/site", "/areum/jsx-runtime"), "/areum/jsx-runtime");
    assert_eq!(join("/site", ""), "/site");
    assert_eq!(join("", "a"), "a");
    assert_eq!(join("", ""), "");
}

#[test]
fn prefixes() {
    assert_eq!(strip_prefix("/site/a/b.jsx", "/site"), Some("a/b.jsx".to_string()));
    assert_eq!(strip_prefix("/site/a", "/site/"), Some("a".to_string()));
    assert_eq!(strip_prefix("/site", "/site"), Some("".to_string()));
    assert_eq!(strip_prefix("/sitemap/a", "/site"), None);
    assert_eq!(strip_prefix("/other/a", "/site"), None);
    assert_eq!(strip_prefix("a/b", ""), Some("a/b".to_string()));
    assert_eq!(strip_prefix("/a", ""), None);
}

#[test]
fn trims() {
    assert_eq!(trim_slashes("/a/b/"), "a/b");
    assert_eq!(trim_slashes("///a//b//"), "a//b");
    assert_eq!(trim_slashes("/"), "");
    assert_eq!(trim_slashes("////"), "");
    assert_eq!(trim_slashes(""), "");
    assert_eq!(trim_slashes("a"), "a");
    assert!(begins_with_char("_x", '_'));
    assert!(!begins_with_char("x_", '_'));
    assert!(!begins_with_char("", '_'));
}

#[test]
fn kinds_by_extension() {
    assert_eq!(SrcKind::from("a.jsx"), SrcKind::Jsx);
    assert_eq!(SrcKind::from("a.tsx"), SrcKind::Jsx);
    assert_eq!(SrcKind::from("a.mdx"), SrcKind::Mdx);
    assert_eq!(SrcKind::from("a.md"), SrcKind::Mdx);
    assert_eq!(SrcKind::from("a.js"), SrcKind::Js);
    assert_eq!(SrcKind::from("a.ts"), SrcKind::Js);
    assert_eq!(SrcKind::from("a.css"), SrcKind::Css);
    assert_eq!(SrcKind::from("a.png"), SrcKind::Other);
    assert_eq!(SrcKind::from("a"), SrcKind::Other);
    assert_eq!(SrcKind::from("a.JSX"), SrcKind::Other);
    assert!(SrcKind::Mdx.is_page());
    assert!(!SrcKind::Css.is_page());
    assert_eq!(FileKind::from("x/a.tsx"), FileKind::Jsx);
    assert_eq!(FileKind::from("x/a.md"), FileKind::Mdx);
    assert_eq!(FileKind::from("x/a.ts"), FileKind::Js);
    assert_eq!(FileKind::from("x/a.css"), FileKind::Css);
    assert_eq!(FileKind::from("x/a"), FileKind::Other);
    assert_eq!(VFileKind::from("x/a.jsx"), VFileKind::Jsx);
    assert_eq!(VFileKind::from("x/a.mdx"), VFileKind::Mdx);
    assert_eq!(VFileKind::from("x/a.js"), VFileKind::Js);
    assert_eq!(VFileKind::from("x/a.css"), VFileKind::Css);
    assert_eq!(VFileKind::from("x/a.txt"), VFileKind::Other);
}

#[test]
fn source_files() {
    assert_eq!(
        SrcFile::from("/site/blog/_.tsx".to_string()),
        SrcFile { path: "/site/blog/_.tsx".to_string(), kind: SrcKind::Jsx, underscore: true, generator: true }
    );
    assert_eq!(
        SrcFile::from("/site/_layout.jsx".to_string()),
        SrcFile { path: "/site/_layout.jsx".to_string(), kind: SrcKind::Jsx, underscore: true, generator: false }
    );
    assert_eq!(
        SrcFile::from("/site/a.css".to_string()),
        SrcFile { path: "/site/a.css".to_string(), kind: SrcKind::Css, underscore: false, generator: false }
    );
    let file = SrcFile::from("/site/a.css".to_string());
    assert_eq!(file.clone(), file);
    assert_eq!(
        File::from("/site/_a.md".to_string()),
        File { path: "/site/_a.md".to_string(), kind: FileKind::Mdx, underscore: true }
    );
    assert_eq!(
        VFile::from("/site/a.ts".to_string()),
        VFile { path: "/site/a.ts".to_string(), kind: VFileKind::Js, underscore: false }
    );
}

fn site() -> SrcFs {
    let mut files = SrcFs::new("/site");
    files.scan(vec![
        "/site/index.jsx".to_string(),
        "/site/about.mdx".to_string(),
        "/site/about.css".to_string(),
        "/site/_layout.tsx".to_string(),
        "/site/blog/_.tsx".to_string(),
        "/site/blog/index.tsx".to_string(),
        "/site/logo.png".to_string(),
    ]);
    files
}

fn paths_of(files: &[SrcFile]) -> Vec<&str> {
    files.iter().map(|f| f.path.as_str()).collect()
}

#[test]
fn scan_keeps_the_order() {
    let files = site();
    assert_eq!(files.root(), "/site");
    assert_eq!(files.iter().len(), 7);
    assert_eq!(files.iter()[1].path, "/site/about.mdx");
}

#[test]
fn pages_generators_and_assets() {
    let files = site();
    assert_eq!(
        paths_of(&files.iter_pages()),
        vec!["/site/index.jsx", "/site/about.mdx", "/site/blog/index.tsx"]
    );
    assert_eq!(paths_of(&files.iter_generators()), vec!["/site/blog/_.tsx"]);
    assert_eq!(paths_of(&files.iter_assets()), vec!["/site/about.css", "/site/logo.png"]);
    assert_eq!(paths_of(&files.select(Wanted::Assets)), vec!["/site/about.css", "/site/logo.png"]);
}

#[test]
fn find_prefers_the_earlier_stage() {
    let files = site();
    assert_eq!(files.find("about.css").unwrap().path, "/site/about.css");
    assert_eq!(files.find("about").unwrap().path, "/site/about.mdx");
    assert_eq!(files.find("").unwrap().path, "/site/index.jsx");
    assert_eq!(files.find("blog").unwrap().path, "/site/blog/index.tsx");
    assert_eq!(files.find("blog/post").unwrap().path, "/site/blog/_.tsx");
    assert_eq!(files.find("nothing/here"), None);
    assert_eq!(files.find("logo"), Some(SrcFile::from("/site/logo.png".to_string())));
}

#[test]
fn find_in_an_empty_site() {
    assert_eq!(SrcFs::new("/site").find("a"), None);
}

#[test]
fn site_paths() {
    let files = site();
    let at = |p: &str| files.site_path(&SrcFile::from(p.to_string()));
    assert_eq!(at("/site/index.jsx"), Ok("".to_string()));
    assert_eq!(at("/site/dir/index.tsx"), Ok("dir".to_string()));
    assert_eq!(at("/site/dir.tsx"), Ok("dir".to_string()));
    assert_eq!(at("/site/a/b.md"), Ok("a/b".to_string()));
    assert_eq!(at("/site/a/b.css"), Ok("a/b.css".to_string()));
    assert_eq!(at("/elsewhere/a.jsx"), Err(PathError::OutsideRoot));
}

#[test]
fn output_paths() {
    let files = site();
    let at = |p: &str| files.out_fpath(&SrcFile::from(p.to_string()), "/out");
    assert_eq!(at("/site/index.jsx"), Ok("/out/index.html".to_string()));
    assert_eq!(at("/site/dir/index.tsx"), Ok("/out/dir/index.html".to_string()));
    assert_eq!(at("/site/dir.tsx"), Ok("/out/dir/index.html".to_string()));
    assert_eq!(at("/site/img/logo.png"), Ok("/out/img/logo.png".to_string()));
    assert_eq!(at("/elsewhere/logo.png"), Err(PathError::OutsideRoot));
}

#[test]
fn older_file_lists() {
    let fs = Fsys::new("/site", vec!["/site/a.jsx".to_string(), "/site/_b.css".to_string()]);
    assert_eq!(fs.entries.len(), 2);
    assert_eq!(fs.entries(), &fs.entries);
    assert_eq!(fs.entries()[0], File { path: "/site/a.jsx".to_string(), kind: FileKind::Jsx, underscore: false });
    assert_eq!(fs.entries[1], File { path: "/site/_b.css".to_string(), kind: FileKind::Css, underscore: true });
    let mut vfs = VFSys::new("/site", vec![]);
    assert_eq!(vfs.entries.len(), 0);
    vfs.scan(vec!["/site/a.mdx".to_string()]);
    assert_eq!(vfs.entries, vec![VFile { path: "/site/a.mdx".to_string(), kind: VFileKind::Mdx, underscore: false }]);
    assert_eq!(vfs.entries().len(), 1);
    assert_eq!(vfs.entries()[0].path, "/site/a.mdx");
}

#[test]
fn page_directories() {
    assert_eq!(page_dirname("/root/index.html"), "/root");
    assert_eq!(page_dirname("/root/dir/index.html"), "/root/dir");
    assert_eq!(page_dirname("/root/dir.html"), "/root/dir");
    assert_eq!(page_dirname("/index.tsx"), "/");
    assert_eq!(page_dirname("index.tsx"), "");
    assert_eq!(page_path_of("a/index.md"), "a");
    assert_eq!(directory_of("/a/b"), "/a");
    assert_eq!(directory_of("/"), "");
    assert_eq!(page_out_file("/root/dir.tsx", "/root", "/out"), Ok("/out/dir/index.html".to_string()));
    assert_eq!(page_out_file("/root/index.tsx", "/root", "/out"), Ok("/out/index.html".to_string()));
    assert_eq!(page_out_file("/other/index.tsx", "/root", "/out"), Err(PathError::OutsideRoot));
}

#[test]
fn site_entries() {
    assert!(is_site("/root/pages", true, false));
    assert!(!is_site("/root/.git", true, true));
    assert!(is_site("/root/a.tsx", false, false));
    assert!(is_site("/root/a.jsx", false, false));
    assert!(!is_site("/root/_a.jsx", false, false));
    assert!(!is_site("/root/a.mdx", false, false));
    assert!(!is_site("/root/a", false, false));
    assert!(!is_site("/root/a.tsx", false, true));
}

#[test]
fn loader_decisions() {
    assert_eq!(module_type(MediaType::Json), ModuleType::Json);
    assert_eq!(module_type(MediaType::Tsx), ModuleType::JavaScript);
    assert_eq!(fetch_of("file"), Ok(Fetch::File));
    assert_eq!(fetch_of("https"), Ok(Fetch::Https));
    assert_eq!(fetch_of("http"), Err(InvalidScheme));
    assert_eq!(
        transpile_plan("/site/a.mdx", MediaType::Unknown),
        TranspilePlan { markdown: true, media: MediaType::Tsx, transpile: true }
    );
    assert_eq!(
        transpile_plan("/site/a.md", MediaType::Unknown),
        TranspilePlan { markdown: true, media: MediaType::Tsx, transpile: true }
    );
    assert_eq!(
        transpile_plan("/site/a.js", MediaType::JavaScript),
        TranspilePlan { markdown: false, media: MediaType::JavaScript, transpile: false }
    );
    assert_eq!(
        transpile_plan("/site/a.mjs", MediaType::Mjs),
        TranspilePlan { markdown: false, media: MediaType::Mjs, transpile: false }
    );
    assert_eq!(
        transpile_plan("/site/a.cjs", MediaType::Cjs),
        TranspilePlan { markdown: false, media: MediaType::Cjs, transpile: false }
    );
    assert_eq!(
        transpile_plan("/site/a.ts", MediaType::TypeScript),
        TranspilePlan { markdown: false, media: MediaType::TypeScript, transpile: true }
    );
    assert_eq!(pick_extension(true, true, false, false), Some("ts"));
    assert_eq!(pick_extension(true, false, false, false), Some("tsx"));
    assert_eq!(pick_extension(true, true, true, true), Some("js"));
    assert_eq!(pick_extension(false, false, true, false), Some("jsx"));
    assert_eq!(pick_extension(false, false, false, false), None);
    let options = LoaderOptions { jsx_import_source: "/areum".to_string() };
    assert_eq!(options.clone().jsx_import_source, "/areum");
}

#[test]
fn injected_sources() {
    let mut injected = Injected::new();
    assert_eq!(injected.get_injected("file:///a.ts"), None);
    injected.inject("file:///a.ts".to_string(), "1".to_string());
    injected.inject("file:///b.ts".to_string(), "2".to_string());
    injected.inject("file:///a.ts".to_string(), "3".to_string());
    assert_eq!(injected.get_injected("file:///a.ts"), Some("3".to_string()));
    assert_eq!(injected.get_injected("file:///b.ts"), Some("2".to_string()));
    assert_eq!(injected.get_injected("file:///c.ts"), None);
}

#[test]
fn generator_directories() {
    assert_eq!(generator_dir("/site/blog/_.tsx", "/site"), Some("blog".to_string()));
    assert_eq!(generator_dir("/site/a/b/_.md", "/site/"), Some("a/b".to_string()));
    assert_eq!(generator_dir("/site/_.tsx", "/site"), Some("".to_string()));
    assert_eq!(generator_dir("/other/_.tsx", "/site"), None);
    assert_eq!(generator_dir("/site", "/site"), None);
}
