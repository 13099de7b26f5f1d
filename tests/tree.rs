use treer::filter::{get_size_filter, EntryKind, SizeSign, SizeSpec};
use treer::identity::id_label;
use treer::pattern::{NamePattern, PatternError};
use treer::size::{SizePrinter, SizeUnit};
use treer::tree::{extend_bar, render, summary, Config, EntryMeta, Listing, Node, Render};

fn meta(len: u64, mode: u32) -> EntryMeta {
    EntryMeta {
        len,
        mode,
        owner: "alice".to_string(),
        group: "staff".to_string(),
        modified: Some("Jan 02 03:04".to_string()),
    }
}

fn file(name: &str, len: u64) -> Node {
    Node {
        name: name.to_string(),
        kind: EntryKind::File,
        meta: meta(len, 0o644),
        target: String::new(),
        listing: Listing::Unread,
    }
}

fn link(name: &str, target: &str) -> Node {
    Node {
        name: name.to_string(),
        kind: EntryKind::Symlink,
        meta: meta(7, 0o777),
        target: target.to_string(),
        listing: Listing::Unread,
    }
}

fn dir(name: &str, children: Vec<Node>) -> Node {
    Node {
        name: name.to_string(),
        kind: EntryKind::Dir,
        meta: meta(4096, 0o755),
        target: String::new(),
        listing: Listing::Entries(children),
    }
}

fn plain() -> Config {
    Config {
        depth: None,
        dir_only: false,
        patterns: Vec::new(),
        size: None,
        size_printer: None,
        show_perms: false,
        show_user: false,
        show_group: false,
        show_date: false,
    }
}

fn run(cfg: &Config, roots: Vec<Result<Node, String>>) -> Render {
    render(cfg, &roots)
}

fn sample() -> Node {
    dir(
        "top",
        vec![
            file("zeta.txt", 10),
            dir("mid", vec![file("deep.rs", 1), dir("deeper", vec![file("x", 0)])]),
            file("alpha.md", 2048),
            link("ln", "zeta.txt"),
        ],
    )
}

#[test]
fn scenario_file_and_empty_directory() {
    let root = dir("R", vec![dir("b", vec![]), file("a.txt", 3)]);
    let out = run(&plain(), vec![Ok(root)]);
    assert_eq!(out.lines, vec!["R", "├── a.txt", "└── b", "", "2 directories, 1 file"]);
    assert!(out.errors.is_empty());
    assert_eq!((out.dirs, out.files), (2, 1));
}

#[test]
fn children_sorted_with_bars_and_symlink_target() {
    let out = run(&plain(), vec![Ok(sample())]);
    assert_eq!(
        out.lines,
        vec![
            "top",
            "├── alpha.md",
            "├── ln -> zeta.txt",
            "├── mid",
            "│   ├── deep.rs",
            "│   └── deeper",
            "│       └── x",
            "└── zeta.txt",
            "",
            "3 directories, 5 files",
        ]
    );
}

#[test]
fn exactly_one_last_connector_per_level() {
    let out = run(&plain(), vec![Ok(sample())]);
    let top_level: Vec<&String> = out.lines.iter().filter(|l| l.starts_with("└──") || l.starts_with("├──")).collect();
    assert_eq!(top_level.iter().filter(|l| l.starts_with("└──")).count(), 1);
    assert!(top_level.last().unwrap().starts_with("└──"));
    let second: Vec<&String> = out.lines.iter().filter(|l| l.starts_with("│   ├──") || l.starts_with("│   └──")).collect();
    assert_eq!(second.len(), 2);
    assert!(second[1].starts_with("│   └──"));
}

#[test]
fn rendering_twice_gives_identical_output() {
    let a = run(&plain(), vec![Ok(sample())]);
    let b = run(&plain(), vec![Ok(sample())]);
    assert_eq!(a.lines, b.lines);
    assert_eq!(a.errors, b.errors);
    assert_eq!((a.dirs, a.files), (b.dirs, b.files));
}

#[test]
fn summary_sums_the_roots() {
    let one = run(&plain(), vec![Ok(sample())]);
    let two = run(&plain(), vec![Ok(dir("R", vec![file("a", 1), dir("b", vec![])]))]);
    let both = run(
        &plain(),
        vec![Ok(sample()), Err("missing: No such file or directory".to_string()), Ok(dir("R", vec![file("a", 1), dir("b", vec![])]))],
    );
    assert_eq!(both.dirs, one.dirs + two.dirs);
    assert_eq!(both.files, one.files + two.files);
    assert_eq!(both.lines.last().unwrap(), "5 directories, 6 files");
    assert_eq!(both.errors, vec!["missing: No such file or directory"]);
}

#[test]
fn depth_bound_renders_but_does_not_expand() {
    let mut cfg = plain();
    cfg.depth = Some(1);
    let out = run(&cfg, vec![Ok(sample())]);
    assert_eq!(
        out.lines,
        vec!["top", "├── alpha.md", "├── ln -> zeta.txt", "├── mid", "└── zeta.txt", "", "2 directories, 3 files"]
    );
    cfg.depth = Some(2);
    let out = run(&cfg, vec![Ok(sample())]);
    assert!(out.lines.contains(&"│   └── deeper".to_string()));
    assert!(!out.lines.iter().any(|l| l.contains("x") && l.starts_with("│       ")));
    assert_eq!(out.lines.last().unwrap(), "3 directories, 4 files");
}

#[test]
fn depth_zero_still_lists_first_level() {
    let mut cfg = plain();
    cfg.depth = Some(0);
    let out = run(&cfg, vec![Ok(sample())]);
    assert_eq!(out.lines.len(), 7);
}

#[test]
fn name_patterns_keep_directories() {
    let mut cfg = plain();
    cfg.patterns = vec![NamePattern::new(r"\.rs$").ok().unwrap()];
    let out = run(&cfg, vec![Ok(sample())]);
    assert_eq!(
        out.lines,
        vec!["top", "└── mid", "    ├── deep.rs", "    └── deeper", "", "3 directories, 1 file"]
    );
}

#[test]
fn invalid_pattern_is_refused() {
    match NamePattern::new("(unclosed") {
        Err(PatternError::Invalid { pattern }) => assert_eq!(pattern, "(unclosed"),
        Ok(_) => panic!("pattern should be refused"),
    }
    let p = NamePattern::new("^a").ok().unwrap();
    assert_eq!(p.as_str(), "^a");
    assert!(p.is_match("abc"));
    assert!(!p.is_match("cab"));
}

#[test]
fn directories_only() {
    let mut cfg = plain();
    cfg.dir_only = true;
    let out = run(&cfg, vec![Ok(sample())]);
    assert_eq!(
        out.lines,
        vec!["top", "└── mid", "    └── deeper", "", "3 directories"]
    );
}

#[test]
fn size_filter_boundaries() {
    let big = SizeSpec::parse("+1024").unwrap();
    assert!(!big.accepts(1024));
    assert!(big.accepts(1025));
    let exact = SizeSpec::parse("1024").unwrap();
    assert!(exact.accepts(1024));
    assert!(!exact.accepts(1023));
    assert!(!exact.accepts(1025));
    let small = SizeSpec::parse("-1K").unwrap();
    assert!(small.accepts(1023));
    assert!(!small.accepts(1024));
}

#[test]
fn size_filter_in_render_keeps_directories() {
    let mut cfg = plain();
    cfg.size = SizeSpec::parse("+1K");
    let out = run(&cfg, vec![Ok(sample())]);
    assert_eq!(
        out.lines,
        vec!["top", "├── alpha.md", "└── mid", "    └── deeper", "", "3 directories, 1 file"]
    );
}

#[test]
fn size_spec_parsing() {
    let s = SizeSpec::parse("+10K").unwrap();
    assert!(matches!(s.sign, SizeSign::Greater));
    assert_eq!((s.factor, s.multiplier), (10, 1024));
    let s = SizeSpec::parse("3P").unwrap();
    assert!(matches!(s.sign, SizeSign::Exact));
    assert_eq!(s.multiplier, 1u64 << 50);
    for bad in ["", "+", "K", "+K", "1.5K", "10k", "1KB", "--1", "x1"] {
        assert!(SizeSpec::parse(bad).is_none(), "{}", bad);
    }
    let huge = SizeSpec::parse("-99999999999999999999999").unwrap();
    assert!(huge.accepts(u64::MAX));
    let huge = SizeSpec::parse("+99999999999999999999999").unwrap();
    assert!(!huge.accepts(u64::MAX));
}

#[test]
fn size_filter_from_text() {
    assert!(get_size_filter(&None, 5));
    assert!(get_size_filter(&Some("5".to_string()), 5));
    assert!(!get_size_filter(&Some("5".to_string()), 6));
    assert!(!get_size_filter(&Some("bad".to_string()), 5));
    assert!(get_size_filter(&Some("+1M".to_string()), 1048577));
}

#[test]
fn human_sizes() {
    assert_eq!(SizePrinter::Human.get_file_size(1023), "1023");
    assert_eq!(SizePrinter::Human.get_file_size(1024), "1.0K");
    assert_eq!(SizePrinter::Human.get_file_size(1_048_576), "1.0M");
    assert_eq!(SizePrinter::Human.get_file_size(5), "   5");
    assert_eq!(SizePrinter::Human.get_file_size(1536), "1.5K");
    assert_eq!(SizePrinter::Human.get_file_size(1_048_575), "1024.0K");
    assert_eq!(SizePrinter::Human.get_file_size(1280), "1.2K");
    assert_eq!(SizePrinter::Human.get_file_size(u64::MAX), "16384.0P");
}

#[test]
fn raw_sizes() {
    assert_eq!(SizePrinter::Bytes.get_file_size(0), "          0");
    assert_eq!(SizePrinter::Bytes.get_file_size(4096), "       4096");
    assert_eq!(SizePrinter::Bytes.get_file_size(u64::MAX), "18446744073709551615");
}

#[test]
fn units() {
    assert_eq!(SizeUnit::K.to_string(), "K");
    assert_eq!(SizeUnit::P.to_string(), "P");
    assert!(matches!(SizeUnit::T.next_unit(), SizeUnit::P));
    assert!(matches!(SizeUnit::P.next_unit(), SizeUnit::P));
}

#[test]
fn detail_prefix() {
    let mut cfg = plain();
    cfg.show_perms = true;
    cfg.size_printer = Some(SizePrinter::Human);
    cfg.show_user = true;
    cfg.show_group = true;
    cfg.show_date = true;
    assert_eq!(
        cfg.entry_details(&EntryKind::Dir, &meta(4096, 0o755)),
        "[drwxr-xr-x 4.0K alice staff Jan 02 03:04]  "
    );
    let mut m = meta(3, 0o644);
    m.modified = None;
    assert_eq!(
        cfg.entry_details(&EntryKind::File, &m),
        "[-rw-r--r--    3 alice staff]  "
    );
    let mut cfg = plain();
    cfg.show_perms = true;
    assert_eq!(cfg.entry_details(&EntryKind::Symlink, &meta(3, 0o777)), "[lrwxrwxrwx]  ");
    assert_eq!(plain().entry_details(&EntryKind::File, &m), "");
}

#[test]
fn root_and_child_lines_carry_details() {
    let mut cfg = plain();
    cfg.size_printer = Some(SizePrinter::Bytes);
    let out = run(&cfg, vec![Ok(dir("R", vec![file("a", 12)]))]);
    assert_eq!(
        out.lines,
        vec!["[       4096]  R", "└── [         12]  a", "", "1 directories, 1 file"]
    );
}

#[test]
fn unreadable_directory_is_a_leaf_with_an_error() {
    let mut locked = dir("locked", vec![]);
    locked.listing = Listing::Failed("locked: Permission denied".to_string());
    let out = run(&plain(), vec![Ok(dir("R", vec![locked, file("f", 1)]))]);
    assert_eq!(out.lines, vec!["R", "├── f", "└── locked", "", "2 directories, 1 file"]);
    assert_eq!(out.errors, vec!["locked: Permission denied"]);
}

#[test]
fn other_kinds_are_shown_but_not_counted() {
    let mut sock = file("sock", 0);
    sock.kind = EntryKind::Other;
    let out = run(&plain(), vec![Ok(dir("R", vec![file("a", 1), sock]))]);
    assert_eq!(out.lines, vec!["R", "├── a", "└── sock", "", "1 directories, 1 file"]);
}

#[test]
fn summary_wording() {
    assert_eq!(summary(false, 1, 0), "1 directories, 0 files");
    assert_eq!(summary(false, 4, 1), "4 directories, 1 file");
    assert_eq!(summary(false, 4, 2), "4 directories, 2 files");
    assert_eq!(summary(true, 7, 2), "7 directories");
}

#[test]
fn bars() {
    assert_eq!(extend_bar("", true), "    ");
    assert_eq!(extend_bar("    ", false), "    │   ");
}

#[test]
fn id_labels() {
    assert_eq!(id_label(1000, Some("bob".to_string())), "bob");
    assert_eq!(id_label(1000, None), "1000");
}
