use treer::entry::Entry;
use treer::glob_pattern::GlobPattern;
use treer::root::Opts;
use treer::traversal::render_tree;

fn sample_directory() -> Vec<Entry> {
    let lv3 = Entry::dir("sub-dir-lv3", 0o755, None, vec![Entry::file("file5.abc", 0, 0o644, None)]);
    let lv2 = Entry::dir(
        "sub-dir-lv2",
        0o755,
        None,
        vec![
            Entry::file("file4", 0, 0o644, None),
            lv3,
            Entry::file(".hidden2.txt", 0, 0o644, None),
        ],
    );
    let lv1 = Entry::dir(
        "sub-dir-lv1",
        0o755,
        None,
        vec![lv2, Entry::file("file3.toml", 0, 0o644, None)],
    );
    vec![
        Entry::file("file2.txt", 0, 0o644, None),
        Entry::dir(".hidden", 0o755, None, vec![]),
        lv1,
        Entry::file(".hidden.lock", 0, 0o644, None),
        Entry::file("file1.md", 0, 0o644, None),
    ]
}

fn print_sample(opts: &Opts) -> String {
    let entries = sample_directory();
    render_tree("sample-directory", "tests/sample-directory", &entries, opts)
}

fn pattern(text: &str) -> GlobPattern {
    GlobPattern::new(text).unwrap()
}

#[test]
fn test_print_default() {
    let opts: Opts = Default::default();
    let result = print_sample(&opts);
    let expected = r#"sample-directory
├──  sub-dir-lv1
│   ├──  sub-dir-lv2
│   │   ├──  sub-dir-lv3
│   │   │   └── 󰈔 file5.abc
│   │   └── 󰈔 file4
│   └── 󱁻 file3.toml
├── 󰈙 file1.md
└── 󰈙 file2.txt

3 directories, 5 files
"#;
    assert_eq!(result, expected);
}

#[test]
fn test_print_hidden() {
    let mut opts: Opts = Default::default();
    opts.show_hidden = true;
    let result = print_sample(&opts);
    let expected = r#"sample-directory
├──  .hidden
├──  sub-dir-lv1
│   ├──  sub-dir-lv2
│   │   ├──  sub-dir-lv3
│   │   │   └── 󰈔 file5.abc
│   │   ├── 󰈙 .hidden2.txt
│   │   └── 󰈔 file4
│   └── 󱁻 file3.toml
├── 󱆄 .hidden.lock
├── 󰈙 file1.md
└── 󰈙 file2.txt

4 directories, 7 files
"#;
    assert_eq!(result, expected);
}

#[test]
fn test_match_pattern() {
    let mut opts: Opts = Default::default();
    opts.patterns = vec![pattern("*1*")];
    let result = print_sample(&opts);
    let expected = "sample-directory\n├── \u{1b}[1;31m\u{e5fe} sub-dir-lv1\u{1b}[0m\n│   \u{1b}[31m├── \u{1b}[0m\u{e5fe} sub-dir-lv2\n│   \u{1b}[31m│   \u{1b}[0m\u{1b}[31m├── \u{1b}[0m\u{e5fe} sub-dir-lv3\n│   \u{1b}[31m│   \u{1b}[0m\u{1b}[31m│   \u{1b}[0m\u{1b}[31m└── \u{1b}[0m\u{f0214} file5.abc\n│   \u{1b}[31m│   \u{1b}[0m\u{1b}[31m└── \u{1b}[0m\u{f0214} file4\n│   \u{1b}[31m└── \u{1b}[0m\u{f107b} file3.toml\n└── \u{1b}[1;31m\u{f0219} file1.md\u{1b}[0m\n\n3 directories, 4 files\n";
    assert_eq!(result, expected);

    opts.patterns = vec![pattern("*lv*")];
    let result = print_sample(&opts);
    let expected = "sample-directory\n└── \u{1b}[1;31m\u{e5fe} sub-dir-lv1\u{1b}[0m\n    \u{1b}[31m├── \u{1b}[0m\u{1b}[1;31m\u{e5fe} sub-dir-lv2\u{1b}[0m\n    \u{1b}[31m│   \u{1b}[0m\u{1b}[31m├── \u{1b}[0m\u{1b}[1;31m\u{e5fe} sub-dir-lv3\u{1b}[0m\n    \u{1b}[31m│   \u{1b}[0m\u{1b}[31m│   \u{1b}[0m\u{1b}[31m└── \u{1b}[0m\u{f0214} file5.abc\n    \u{1b}[31m│   \u{1b}[0m\u{1b}[31m└── \u{1b}[0m\u{f0214} file4\n    \u{1b}[31m└── \u{1b}[0m\u{f107b} file3.toml\n\n3 directories, 3 files\n";
    assert_eq!(result, expected);
}

#[test]
fn test_exclude_patterns() {
    let mut opts: Opts = Default::default();
    opts.exclude_patterns = vec![pattern("*2*")];
    let result = print_sample(&opts);
    let expected = r#"sample-directory
├──  sub-dir-lv1
│   └── 󱁻 file3.toml
└── 󰈙 file1.md

1 directory, 2 files
"#;
    assert_eq!(result, expected);

    opts.exclude_patterns = vec![pattern("*2.txt"), pattern("*3*")];
    let result = print_sample(&opts);
    let expected = r#"sample-directory
├──  sub-dir-lv1
│   └──  sub-dir-lv2
│       └── 󰈔 file4
└── 󰈙 file1.md

2 directories, 2 files
"#;
    assert_eq!(result, expected);
}

#[test]
fn test_max_level() {
    let mut opts: Opts = Default::default();
    opts.level = Some(3);
    let result = print_sample(&opts);
    let expected = r#"sample-directory
├──  sub-dir-lv1
│   ├──  sub-dir-lv2
│   │   ├──  sub-dir-lv3
│   │   └── 󰈔 file4
│   └── 󱁻 file3.toml
├── 󰈙 file1.md
└── 󰈙 file2.txt

3 directories, 4 files
"#;
    assert_eq!(result, expected);

    opts.level = Some(2);
    let result = print_sample(&opts);
    let expected = r#"sample-directory
├──  sub-dir-lv1
│   ├──  sub-dir-lv2
│   └── 󱁻 file3.toml
├── 󰈙 file1.md
└── 󰈙 file2.txt

2 directories, 3 files
"#;
    assert_eq!(result, expected);
}

#[test]
fn test_combination() {
    let mut opts: Opts = Default::default();
    opts.show_hidden = true;
    opts.ascii = true;
    opts.level = Some(3);
    opts.exclude_patterns = vec![pattern("*2.txt"), pattern("*3*")];
    let result = print_sample(&opts);
    let expected = r#"sample-directory
|--- .hidden
|--- sub-dir-lv1
|   +--- sub-dir-lv2
|       +---󰈔 file4
|---󱆄 .hidden.lock
+---󰈙 file1.md

3 directories, 3 files
"#;
    assert_eq!(result, expected);

    opts.patterns = vec![pattern("*lv*")];
    let result = print_sample(&opts);
    let expected = "sample-directory\n+---\u{1b}[1;31m\u{e5fe} sub-dir-lv1\u{1b}[0m\n    \u{1b}[31m+---\u{1b}[0m\u{1b}[1;31m\u{e5fe} sub-dir-lv2\u{1b}[0m\n        \u{1b}[31m+---\u{1b}[0m\u{f0214} file4\n\n2 directories, 1 file\n";
    assert_eq!(result, expected);
}
