use treer::display::format_entry_line;
use treer::entry::Entry;
use treer::glob_pattern::GlobPattern;
use treer::order::{listed_first, name_less};
use treer::root::{cmd_to_opts, run, Cmd, Opts};
use treer::traversal::render_tree;
use treer::utils::Timestamp;

fn small_tree() -> Vec<Entry> {
    vec![
        Entry::file("a.txt", 10, 0o644, Some(Timestamp::from_secs(200))),
        Entry::dir(
            "sub",
            0o755,
            Some(Timestamp::from_secs(300)),
            vec![Entry::file("b.txt", 2048, 0o600, Some(Timestamp::from_secs(100)))],
        ),
    ]
}

fn cmd(path: &str) -> Cmd {
    Cmd {
        path: path.to_string(),
        show_hidden: false,
        ascii: false,
        dir_only: false,
        last_modify: false,
        full_path: false,
        level: None,
        no_indent: false,
        exclude: vec![],
        print_size: false,
        print_permissions: false,
        pattern: vec![],
        sort_by_time: false,
    }
}

#[test]
fn default_listing_puts_directories_first() {
    let opts = Opts::default();
    let out = render_tree("root", "root", &small_tree(), &opts);
    assert_eq!(out, "root\n├──  sub\n│   └── 󰈙 b.txt\n└── 󰈙 a.txt\n\n1 directory, 2 files\n");
}

#[test]
fn excluding_a_file_drops_it_and_its_count() {
    let mut opts = Opts::default();
    opts.exclude_patterns = vec![GlobPattern::new("a.txt").unwrap()];
    let out = render_tree("root", "root", &small_tree(), &opts);
    assert_eq!(out, "root\n└──  sub\n    └── 󰈙 b.txt\n\n1 directory, 1 file\n");
}

#[test]
fn without_patterns_every_filtered_entry_is_listed() {
    let mut opts = Opts::default();
    opts.dir_only = true;
    let out = render_tree("root", "root", &small_tree(), &opts);
    assert_eq!(out, "root\n└──  sub\n\n1 directory, 0 files\n");
}

#[test]
fn a_match_keeps_its_ancestors_unhighlighted() {
    let mut opts = Opts::default();
    opts.patterns = vec![GlobPattern::new("b*").unwrap()];
    let out = render_tree("root", "root", &small_tree(), &opts);
    assert_eq!(
        out,
        "root\n└──  sub\n    └── \u{1b}[1;31m󰈙 b.txt\u{1b}[0m\n\n1 directory, 1 file\n"
    );
}

#[test]
fn time_order_is_oldest_first_then_name() {
    let mut opts = Opts::default();
    opts.sort_by_time = true;
    let entries = vec![
        Entry::file("c", 0, 0o644, Some(Timestamp::from_secs(5))),
        Entry::file("b", 0, 0o644, Some(Timestamp { secs: 5, nanos: 1 })),
        Entry::file("a", 0, 0o644, Some(Timestamp::from_secs(5))),
        Entry::file("z", 0, 0o644, None),
    ];
    let out = render_tree(".", ".", &entries, &opts);
    assert_eq!(out, ".\n├── 󰈔 z\n├── 󰈔 a\n├── 󰈔 c\n└── 󰈔 b\n\n0 directories, 4 files\n");
    opts.sort_by_time = false;
    let out = render_tree(".", ".", &entries, &opts);
    assert_eq!(out, ".\n├── 󰈔 a\n├── 󰈔 b\n├── 󰈔 c\n└── 󰈔 z\n\n0 directories, 4 files\n");
}

#[test]
fn names_order_by_character() {
    assert!(name_less("B", "a"));
    assert!(name_less("ab", "abc"));
    assert!(!name_less("abc", "abc"));
    assert!(!name_less("b", "a"));
    let dir = Entry::dir("z", 0, None, vec![]);
    let file = Entry::file("a", 0, 0, None);
    assert!(listed_first(&dir, &file, false));
    assert!(!listed_first(&file, &dir, true));
}

#[test]
fn metadata_columns() {
    let mut opts = Opts::default();
    opts.print_permissions = true;
    opts.print_size = true;
    opts.last_modify = true;
    opts.full_path = true;
    let out = render_tree("/r", "r/", &small_tree(), &opts);
    assert_eq!(
        out,
        "/r\n[drwxr-xr-x] ├──  r/sub [1970-01-01 00:05:00]\n[-rw-------] │   └── 󰈙 r/sub/b.txt (2.0 KB) [1970-01-01 00:01:40]\n[-rw-r--r--] └── 󰈙 r/a.txt (10 B) [1970-01-01 00:03:20]\n\n1 directory, 2 files\n"
    );
}

#[test]
fn unknown_modification_date() {
    let mut opts = Opts::default();
    opts.last_modify = true;
    opts.no_indent = true;
    let entries = vec![Entry::file("x.json", 0, 0, None)];
    let out = render_tree("d", "d", &entries, &opts);
    assert_eq!(out, "d\n󰱾 x.json [Unknown date]\n\n0 directories, 1 file\n");
}

#[test]
fn icons_by_extension() {
    let opts = Opts::default();
    let names = [
        ("p.png", '\u{f021f}'),
        ("s.ogg", '\u{f0223}'),
        ("v.mkv", '\u{f022b}'),
        ("a.7z", '\u{f1c6}'),
        ("k.pem", '\u{f1184}'),
        ("c.conf", '\u{f107b}'),
        ("d.sql", '\u{f0c7e}'),
        ("r.yaml", '\u{f0219}'),
        (".bashrc", '\u{f0214}'),
        ("noext", '\u{f0214}'),
        ("x.PNG", '\u{f0214}'),
    ];
    for (name, icon) in names {
        let line = format_entry_line(&Entry::file(name, 0, 0, None), &opts, "", &vec![], true, false, None);
        assert_eq!(line, format!("└── {} {}", icon, name));
    }
}

#[test]
fn highlighted_ancestor_colours_deeper_bars() {
    let opts = Opts::default();
    let entry = Entry::file("f", 0, 0, None);
    let line = format_entry_line(&entry, &opts, "", &vec![false, true, false], false, false, Some(1));
    assert_eq!(line, "│       \u{1b}[31m│   \u{1b}[0m\u{1b}[31m├── \u{1b}[0m󰈔 f");
    let mut ascii = Opts::default();
    ascii.ascii = true;
    let line = format_entry_line(&entry, &ascii, "", &vec![false], true, true, None);
    assert_eq!(line, "|   +---\u{1b}[1;31m󰈔 f\u{1b}[0m");
}

#[test]
fn run_lists_with_command_options() {
    let mut c = cmd("root");
    c.pattern = vec!["*.txt".to_string()];
    c.exclude = vec!["a*".to_string()];
    let out = run(&c, "root", &small_tree()).unwrap();
    assert_eq!(
        out,
        "root\n└──  sub\n    └── \u{1b}[1;31m󰈙 b.txt\u{1b}[0m\n\n1 directory, 1 file\n"
    );
}

#[test]
fn run_reports_an_invalid_pattern() {
    let mut c = cmd(".");
    c.pattern = vec!["ok".to_string(), "a***".to_string()];
    let err = run(&c, ".", &vec![]).unwrap_err();
    assert_eq!(
        err,
        "Invalid pattern: Pattern syntax error near position 3: wildcards are either regular `*` or recursive `**`"
    );
    let mut c = cmd(".");
    c.exclude = vec!["[".to_string()];
    assert!(cmd_to_opts(&c).is_err());
    let c = cmd(".");
    assert!(cmd_to_opts(&c).is_ok());
}

#[test]
fn empty_directory_listing() {
    let opts = Opts::default();
    let out = render_tree("empty", "empty", &vec![], &opts);
    assert_eq!(out, "empty\n\n0 directories, 0 files\n");
}
