use dirtree::text::{decimal, ends_with, extension, is_hidden};
use dirtree::{Entry, Generator};

fn file(name: &str) -> Entry {
    Entry { name: name.to_string(), is_dir: false, children: vec![] }
}

fn dir(name: &str, children: Vec<Entry>) -> Entry {
    Entry { name: name.to_string(), is_dir: true, children }
}

fn strings(v: &[&str]) -> Vec<String> {
    v.iter().map(|s| s.to_string()).collect()
}

fn generator(
    dir_only: bool,
    exclude: &[&str],
    include_hidden: bool,
    max_depth: u16,
    extensions: &[&str],
) -> Generator {
    Generator::init(
        "root".to_string(),
        dir_only,
        strings(exclude),
        include_hidden,
        false,
        max_depth,
        strings(extensions),
    )
}

fn render(g: &mut Generator, entries: Vec<Entry>) -> Vec<String> {
    g.build_tree(&entries).clone()
}

#[test]
fn file_and_empty_directory() {
    let mut g = generator(false, &[], false, 2, &[]);
    let out = render(&mut g, vec![file("a.txt"), dir("b", vec![])]);
    assert_eq!(
        out,
        strings(&["root/", "├─── b/", "└─── a.txt", "\n1 directories, 1 files"])
    );
}

#[test]
fn excluded_extension_leaves_no_file() {
    let mut g = generator(false, &[], false, 1, &["txt"]);
    let out = render(&mut g, vec![file("note.txt")]);
    assert_eq!(out, strings(&["root/", "\n0 directories, 0 files"]));
}

#[test]
fn excluded_extension_inside_subdirectory() {
    let mut g = generator(false, &[], false, 3, &["txt"]);
    let out = render(&mut g, vec![dir("d", vec![file("note.txt")])]);
    assert_eq!(out, strings(&["root/", "└─── d/", "\n1 directories, 0 files"]));
}

#[test]
fn excluded_directory_is_pruned() {
    let mut g = generator(false, &["node_modules"], false, 5, &[]);
    let nm = dir("node_modules", vec![file("index.js"), dir("lib", vec![file("x.js")])]);
    let out = render(&mut g, vec![nm, dir("src", vec![file("main.rs")])]);
    assert_eq!(
        out,
        strings(&["root/", "└─── src/", "     └─── main.rs", "\n1 directories, 1 files"])
    );
}

#[test]
fn directories_only_mode() {
    let mut g = generator(true, &[], false, 1, &[]);
    let out = render(&mut g, vec![file("x.rs"), dir("sub", vec![]), file("y.rs")]);
    assert_eq!(out, strings(&["root/", "└─── sub/", "\n1 directories, 0 files"]));
}

#[test]
fn depth_zero_renders_header_and_zero_counts() {
    let mut g = generator(false, &[], true, 0, &[]);
    let out = render(&mut g, vec![file("a"), dir("b", vec![file("c")])]);
    assert_eq!(out, strings(&["root/", "\n0 directories, 0 files"]));
}

#[test]
fn depth_limits_descent() {
    let mut g = generator(false, &[], false, 1, &[]);
    let out = render(&mut g, vec![dir("b", vec![file("c")])]);
    assert_eq!(out, strings(&["root/", "└─── b/", "\n1 directories, 0 files"]));
}

#[test]
fn counts_equal_rendered_lines() {
    let mut g = generator(false, &[], false, 4, &[]);
    let entries = vec![
        dir("a", vec![file("1"), dir("b", vec![file("2"), file("3")])]),
        file("4"),
        dir("c", vec![]),
    ];
    let out = render(&mut g, entries);
    let body = &out[1..out.len() - 1];
    let dirs = body.iter().filter(|l| l.ends_with('/')).count();
    let files = body.len() - dirs;
    assert_eq!((dirs, files), (3, 4));
    assert_eq!(out.last().unwrap(), "\n3 directories, 4 files");
}

#[test]
fn nested_prefixes_and_connectors() {
    let mut g = generator(false, &[], false, 3, &[]);
    let entries = vec![
        dir("a", vec![file("x"), file("y")]),
        dir("b", vec![file("z")]),
        file("f"),
    ];
    let out = render(&mut g, entries);
    assert_eq!(
        out,
        strings(&[
            "root/",
            "├─── a/",
            "│    ├─── x",
            "│    └─── y",
            "├─── b/",
            "│    └─── z",
            "└─── f",
            "\n2 directories, 4 files",
        ])
    );
}

#[test]
fn directories_come_before_files_whatever_the_name() {
    let mut g = generator(false, &[], false, 1, &[]);
    let out = render(&mut g, vec![file("a"), dir("z", vec![]), file("b"), dir("y", vec![])]);
    assert_eq!(
        out,
        strings(&["root/", "├─── z/", "├─── y/", "├─── a", "└─── b", "\n2 directories, 2 files"])
    );
}

#[test]
fn one_elbow_per_group_after_filtering() {
    let mut g = generator(false, &[], false, 1, &["log"]);
    let out = render(&mut g, vec![file("a"), file("b"), file("c.log")]);
    let elbows = out.iter().filter(|l| l.starts_with("└")).count();
    assert_eq!(elbows, 1);
    assert_eq!(out[2], "└─── b");
}

#[test]
fn builds_are_repeatable() {
    let mk = || vec![dir("a", vec![file("x")]), file(".h"), file("y.txt")];
    let mut g1 = generator(false, &["q"], false, 2, &["md"]);
    let mut g2 = generator(false, &["q"], false, 2, &["md"]);
    assert_eq!(render(&mut g1, mk()), render(&mut g2, mk()));
}

#[test]
fn name_exclusion_spares_files() {
    let mut g = generator(false, &["node_modules"], false, 1, &[]);
    let out = render(&mut g, vec![file("node_modules")]);
    assert_eq!(out, strings(&["root/", "└─── node_modules", "\n0 directories, 1 files"]));
}

#[test]
fn extension_exclusion_spares_directories() {
    let mut g = generator(false, &[], false, 1, &["txt"]);
    let out = render(&mut g, vec![dir("pkg.txt", vec![])]);
    assert_eq!(out, strings(&["root/", "└─── pkg.txt/", "\n1 directories, 0 files"]));
}

#[test]
fn hidden_entries_suppressed() {
    let mut g = generator(false, &[], false, 2, &[]);
    let out = render(&mut g, vec![dir(".git", vec![file("HEAD")]), file(".env"), file("a")]);
    assert_eq!(out, strings(&["root/", "└─── a", "\n0 directories, 1 files"]));
}

#[test]
fn hidden_entries_included() {
    let mut g = generator(false, &[], true, 2, &[]);
    let out = render(&mut g, vec![dir(".git", vec![file("HEAD")]), file(".env")]);
    assert_eq!(
        out,
        strings(&["root/", "├─── .git/", "│    └─── HEAD", "└─── .env", "\n1 directories, 2 files"])
    );
}

#[test]
fn header_keeps_existing_separator() {
    let mut g = Generator::init("/tmp/x/".to_string(), false, vec![], false, false, 1, vec![]);
    let out = g.build_tree(&vec![]).clone();
    assert_eq!(out, strings(&["/tmp/x/", "\n0 directories, 0 files"]));
}

#[test]
fn multi_digit_counts() {
    let mut g = generator(false, &[], false, 1, &[]);
    let entries: Vec<Entry> = (0..12).map(|i| file(&format!("f{i}"))).collect();
    let out = render(&mut g, entries);
    assert_eq!(out.len(), 14);
    assert_eq!(out.last().unwrap(), "\n0 directories, 12 files");
}

#[test]
fn extension_rules() {
    assert_eq!(extension("a.txt"), Some("txt".to_string()));
    assert_eq!(extension("archive.tar.gz"), Some("gz".to_string()));
    assert_eq!(extension(".bashrc"), None);
    assert_eq!(extension(".a.b"), Some("b".to_string()));
    assert_eq!(extension("noext"), None);
    assert_eq!(extension("trail."), Some("".to_string()));
    assert_eq!(extension(".."), None);
}

#[test]
fn hidden_files_not_excluded_by_their_dotted_name() {
    let mut g = generator(false, &[], true, 1, &["bashrc"]);
    let out = render(&mut g, vec![file(".bashrc"), file("x.bashrc")]);
    assert_eq!(out, strings(&["root/", "└─── .bashrc", "\n0 directories, 1 files"]));
}

#[test]
fn text_helpers() {
    assert_eq!(decimal(0), "0");
    assert_eq!(decimal(907), "907");
    assert!(ends_with("abc/", "/"));
    assert!(!ends_with("abc", "/"));
    assert!(!ends_with("", "/"));
    assert!(is_hidden(".x"));
    assert!(!is_hidden("x."));
}

#[test]
fn keeps_applies_all_filters() {
    let g = generator(true, &["skip"], false, 1, &["o"]);
    assert!(g.keeps(&dir("src", vec![])));
    assert!(!g.keeps(&dir("skip", vec![])));
    assert!(!g.keeps(&dir(".cache", vec![])));
    assert!(!g.keeps(&file("main.rs")));
    let g = generator(false, &["skip"], false, 1, &["o"]);
    assert!(g.keeps(&file("skip")));
    assert!(!g.keeps(&file("main.o")));
    assert!(g.keeps(&dir("lib.o", vec![])));
}

#[test]
fn colored_lines_are_styled() {
    colored::control::set_override(true);
    let mut g = Generator::init("root".to_string(), false, vec![], false, true, 1, vec![]);
    let out = g.build_tree(&vec![dir("b", vec![]), file("a")]).clone();
    assert_eq!(
        out,
        strings(&[
            "\u{1b}[1;31mroot/\u{1b}[0m",
            "\u{1b}[1;31m├─── b/\u{1b}[0m",
            "\u{1b}[32m└─── a\u{1b}[0m",
            "\n1 directories, 1 files",
        ])
    );
    let stripped: Vec<String> = out
        .iter()
        .map(|l| String::from_utf8(strip_ansi_escapes::strip(l).unwrap()).unwrap())
        .collect();
    assert_eq!(
        stripped,
        strings(&["root/", "├─── b/", "└─── a", "\n1 directories, 1 files"])
    );
}

#[test]
fn excluded_directory_same_as_absent() {
    let nm = || dir("node_modules", vec![file("a.js"), dir("deep", vec![file("b.js")])]);
    let mut g1 = generator(false, &["node_modules"], false, 3, &[]);
    let mut g2 = generator(false, &["node_modules"], false, 3, &[]);
    let with = render(&mut g1, vec![file("x"), nm(), dir("src", vec![])]);
    let without = render(&mut g2, vec![file("x"), dir("src", vec![])]);
    assert_eq!(with, without);
    assert_eq!(with.last().unwrap(), "\n1 directories, 1 files");
}

#[test]
fn unset_options_take_defaults() {
    let args = dirtree::Args {
        dir: None,
        max_depth: None,
        dir_only: false,
        include_hidden: false,
        colored: false,
        exclude: None,
        filter_extension: None,
        output: None,
    };
    assert!(!args.writes_output());
    assert_eq!(args.depth_or_default(), 1);
    let mut g = args.into_generator("r".to_string());
    assert_eq!(g.max_depth(), 1);
    let out = g.build_tree(&vec![dir("d", vec![file("x")]), file(".h")]).clone();
    assert_eq!(out, strings(&["r/", "└─── d/", "\n1 directories, 0 files"]));
}

#[test]
fn given_options_are_used() {
    let args = dirtree::Args {
        dir: Some("r".to_string()),
        max_depth: Some(2),
        dir_only: false,
        include_hidden: true,
        colored: false,
        exclude: Some(strings(&["d"])),
        filter_extension: Some(strings(&["x"])),
        output: Some("out.txt".to_string()),
    };
    assert!(args.writes_output());
    let mut g = args.into_generator("r".to_string());
    let out = g.build_tree(&vec![dir("d", vec![]), dir("e", vec![file("a.x"), file("b")]), file(".h")]).clone();
    assert_eq!(
        out,
        strings(&["r/", "├─── e/", "│    └─── b", "└─── .h", "\n1 directories, 2 files"])
    );
}
