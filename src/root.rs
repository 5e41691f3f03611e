//! The options of one listing, and how they are made from the command line.

use crate::entry::{tree_size, Entry};
use crate::glob_pattern::{glob_parse_error, GlobPattern};
use crate::text::push_all;
use crate::traversal::{render_tree, tree_text};
use vstd::prelude::*;

verus! {

/// What to list and how to show it.
#[derive(Debug)]
pub struct Opts {
    /// List entries whose name begins with `.`.
    pub show_hidden: bool,
    /// Draw the tree with ASCII characters.
    pub ascii: bool,
    /// Entries whose name matches one of these are left out, with all
    /// they hold.
    pub exclude_patterns: Vec<GlobPattern>,
    /// Show each entry by its path rather than its name.
    pub full_path: bool,
    /// List directories only.
    pub dir_only: bool,
    /// Show each entry's modification date.
    pub last_modify: bool,
    /// How many levels below the root are listed; all of them if `None`.
    pub level: Option<u32>,
    /// Draw no indentation or branches.
    pub no_indent: bool,
    /// Show the size of each file.
    pub print_size: bool,
    /// Show the permission bits of each entry.
    pub print_permissions: bool,
    /// When not empty, only entries whose name matches one of these are
    /// listed, with what leads to them and what they hold.
    pub patterns: Vec<GlobPattern>,
    /// Order siblings by modification time rather than by name.
    pub sort_by_time: bool,
}

impl Default for Opts {
    fn default() -> (r: Opts)
        ensures
            !r.show_hidden && !r.ascii && r.exclude_patterns@.len() == 0 && !r.full_path
                && !r.dir_only && !r.last_modify && r.level is None && !r.no_indent
                && !r.print_size && !r.print_permissions && r.patterns@.len() == 0
                && !r.sort_by_time,
    {
        Opts {
            show_hidden: false,
            ascii: false,
            exclude_patterns: Vec::new(),
            full_path: false,
            dir_only: false,
            last_modify: false,
            level: None,
            no_indent: false,
            print_size: false,
            print_permissions: false,
            patterns: Vec::new(),
            sort_by_time: false,
        }
    }
}

/// The command line of one listing, as given.
#[derive(Debug)]
pub struct Cmd {
    /// The directory to list.
    pub path: String,
    pub show_hidden: bool,
    pub ascii: bool,
    pub dir_only: bool,
    pub last_modify: bool,
    pub full_path: bool,
    pub level: Option<u32>,
    pub no_indent: bool,
    /// Exclude patterns, as written.
    pub exclude: Vec<String>,
    pub print_size: bool,
    pub print_permissions: bool,
    /// Include patterns, as written.
    pub pattern: Vec<String>,
    pub sort_by_time: bool,
}

/// The syntax error of the first of `texts` that is not a valid pattern,
/// if any.
pub open spec fn first_pattern_error(texts: Seq<String>) -> Option<Seq<char>>
    decreases texts.len(),
{
    if texts.len() == 0 {
        None
    } else if glob_parse_error(texts[0]@) is Some {
        glob_parse_error(texts[0]@)
    } else {
        first_pattern_error(texts.drop_first())
    }
}

/// `patterns` were compiled from `texts`, one for one.
pub open spec fn compiled_from(patterns: Seq<GlobPattern>, texts: Seq<String>) -> bool {
    patterns.len() == texts.len() && forall|k: int|
        0 <= k < texts.len() ==> #[trigger] patterns[k]@ == texts[k]@
}

/// The error of a command line: the first invalid include pattern, else the
/// first invalid exclude pattern.
pub open spec fn cmd_error(cmd: Cmd) -> Option<Seq<char>> {
    match first_pattern_error(cmd.pattern@) {
        Some(msg) => Some(msg),
        None => first_pattern_error(cmd.exclude@),
    }
}

/// `opts` is what `cmd` asks for.
pub open spec fn opts_from(opts: Opts, cmd: Cmd) -> bool {
    &&& opts.show_hidden == cmd.show_hidden
    &&& opts.ascii == cmd.ascii
    &&& compiled_from(opts.exclude_patterns@, cmd.exclude@)
    &&& opts.full_path == cmd.full_path
    &&& opts.dir_only == cmd.dir_only
    &&& opts.last_modify == cmd.last_modify
    &&& opts.level == cmd.level
    &&& opts.no_indent == cmd.no_indent
    &&& opts.print_size == cmd.print_size
    &&& opts.print_permissions == cmd.print_permissions
    &&& compiled_from(opts.patterns@, cmd.pattern@)
    &&& opts.sort_by_time == cmd.sort_by_time
}

/// Compiles each of `texts`, stopping at the first that is not a valid
/// pattern.
fn compile_patterns(texts: &Vec<String>) -> (r: Result<Vec<GlobPattern>, String>)
    ensures
        match r {
            Ok(patterns) => first_pattern_error(texts@) is None && compiled_from(
                patterns@,
                texts@,
            ),
            Err(msg) => first_pattern_error(texts@) == Some(msg@),
        },
{
    let mut patterns: Vec<GlobPattern> = Vec::new();
    let mut i: usize = 0;
    assert(texts@.subrange(0, texts@.len() as int) =~= texts@);
    assert(patterns@ =~= Seq::<GlobPattern>::empty());
    while i < texts.len()
        invariant
            i <= texts@.len(),
            first_pattern_error(texts@) == first_pattern_error(texts@.subrange(i as int, texts@.len() as int)),
            compiled_from(patterns@, texts@.subrange(0, i as int)),
        decreases texts@.len() - i,
    {
        let ghost rest = texts@.subrange(i as int, texts@.len() as int);
        assert(rest[0] == texts@[i as int]);
        assert(rest.drop_first() =~= texts@.subrange(i + 1, texts@.len() as int));
        match GlobPattern::new(texts[i].as_str()) {
            Ok(p) => {
                patterns.push(p);
            },
            Err(msg) => {
                return Err(msg);
            },
        }
        i = i + 1;
        assert(compiled_from(patterns@, texts@.subrange(0, i as int)));
    }
    assert(texts@.subrange(i as int, texts@.len() as int) =~= Seq::<String>::empty());
    assert(texts@.subrange(0, i as int) =~= texts@);
    Ok(patterns)
}

/// The options that `cmd` asks for, or the syntax error of its first
/// invalid pattern (include patterns first).
pub fn cmd_to_opts(cmd: &Cmd) -> (r: Result<Opts, String>)
    ensures
        match r {
            Ok(opts) => cmd_error(*cmd) is None && opts_from(opts, *cmd),
            Err(msg) => cmd_error(*cmd) == Some(msg@),
        },
{
    let patterns = match compile_patterns(&cmd.pattern) {
        Ok(p) => p,
        Err(msg) => {
            return Err(msg);
        },
    };
    let exclude_patterns = match compile_patterns(&cmd.exclude) {
        Ok(p) => p,
        Err(msg) => {
            return Err(msg);
        },
    };
    Ok(
        Opts {
            show_hidden: cmd.show_hidden,
            ascii: cmd.ascii,
            exclude_patterns,
            full_path: cmd.full_path,
            dir_only: cmd.dir_only,
            last_modify: cmd.last_modify,
            level: cmd.level,
            no_indent: cmd.no_indent,
            print_size: cmd.print_size,
            print_permissions: cmd.print_permissions,
            patterns,
            sort_by_time: cmd.sort_by_time,
        },
    )
}

/// The message for an invalid pattern.
pub open spec fn invalid_pattern_text(msg: Seq<char>) -> Seq<char> {
    "Invalid pattern: "@ + msg
}

/// Lists `entries`, the contents of the directory `cmd.path`, shown as
/// `root_label`, as `cmd` asks; or says which pattern of `cmd` is invalid.
pub fn run(cmd: &Cmd, root_label: &str, entries: &Vec<Entry>) -> (r: Result<String, String>)
    requires
        tree_size(entries@) < u64::MAX,
    ensures
        match r {
            Ok(text) => cmd_error(*cmd) is None && exists|opts: Opts|
                opts_from(opts, *cmd) && text@ == tree_text(
                    root_label@,
                    cmd.path@,
                    entries@,
                    opts,
                ),
            Err(msg) => cmd_error(*cmd) matches Some(e) && msg@ == invalid_pattern_text(e),
        },
{
    match cmd_to_opts(cmd) {
        Ok(opts) => Ok(render_tree(root_label, cmd.path.as_str(), entries, &opts)),
        Err(e) => {
            let mut msg = String::new();
            push_all(&mut msg, "Invalid pattern: ");
            push_all(&mut msg, e.as_str());
            Err(msg)
        },
    }
}

} // verus!
