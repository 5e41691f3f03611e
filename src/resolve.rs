//! Which entries are listed, and which are highlighted.
//!
//! An entry is listed when it passes the filters (hidden names, directories
//! only, depth, exclude patterns) and, if include patterns are given, its
//! name matches one, an ancestor's name did, or something it holds is
//! listed. It is highlighted when its own name matches an include pattern.

use crate::entry::{lemma_child_size, tree_size, Entry};
use crate::glob_pattern::{glob_matches, GlobPattern};
use crate::root::Opts;
use vstd::prelude::*;

verus! {

/// Names beginning with `.` are hidden.
pub open spec fn is_hidden(name: Seq<char>) -> bool {
    name.len() > 0 && name[0] == '.'
}

pub open spec fn matches_any(patterns: Seq<GlobPattern>, name: Seq<char>) -> bool {
    exists|k: int| 0 <= k < patterns.len() && glob_matches(#[trigger] patterns[k]@, name)
}

/// The checks made before any include pattern: `depth` is 1 for the
/// root's own entries.
pub open spec fn passes_filters(e: Entry, opts: Opts, depth: nat) -> bool {
    &&& opts.show_hidden || !is_hidden(e.name@)
    &&& !opts.dir_only || e.is_dir
    &&& opts.level matches Some(max) ==> depth <= max
    &&& !matches_any(opts.exclude_patterns@, e.name@)
}

/// The entry's own name matches an include pattern.
pub open spec fn name_matched(e: Entry, opts: Opts) -> bool {
    matches_any(opts.patterns@, e.name@)
}

/// Whether `e`, at `depth`, is listed; `ancestor_matched` tells whether the
/// name of one of its ancestors matched an include pattern.
pub open spec fn is_visible(e: Entry, opts: Opts, depth: nat, ancestor_matched: bool) -> bool
    decreases e,
{
    &&& passes_filters(e, opts, depth)
    &&& {
        ||| opts.patterns@.len() == 0
        ||| name_matched(e, opts)
        ||| ancestor_matched
        ||| e.is_dir && exists|i: int|
            0 <= i < e.children@.len() && is_visible(
                #[trigger] e.children@[i],
                opts,
                depth + 1,
                ancestor_matched || name_matched(e, opts),
            )
    }
}

/// Whether `e`, at `depth`, is highlighted (it is then listed too).
pub open spec fn is_highlighted(e: Entry, opts: Opts, depth: nat) -> bool {
    passes_filters(e, opts, depth) && name_matched(e, opts)
}

/// The verdicts on one entry, and on what it holds where it was looked
/// into.
#[derive(Debug)]
pub struct Marks {
    pub visible: bool,
    pub highlighted: bool,
    pub children: Vec<Marks>,
}

/// `m` holds the verdicts on `e` and, if `e` is a directory that passes the
/// filters, on each entry it holds, in the same order.
pub open spec fn marks_agree(
    m: Marks,
    e: Entry,
    opts: Opts,
    depth: nat,
    ancestor_matched: bool,
) -> bool
    decreases e,
{
    &&& m.visible == is_visible(e, opts, depth, ancestor_matched)
    &&& m.highlighted == is_highlighted(e, opts, depth)
    &&& passes_filters(e, opts, depth) && e.is_dir ==> {
        &&& m.children@.len() == e.children@.len()
        &&& forall|i: int|
            0 <= i < e.children@.len() ==> marks_agree(
                #[trigger] m.children@[i],
                e.children@[i],
                opts,
                depth + 1,
                ancestor_matched || name_matched(e, opts),
            )
    }
}

/// `marks` holds the verdicts on each of `entries`, in order.
pub open spec fn all_marks_agree(
    marks: Seq<Marks>,
    entries: Seq<Entry>,
    opts: Opts,
    depth: nat,
    ancestor_matched: bool,
) -> bool {
    &&& marks.len() == entries.len()
    &&& forall|i: int|
        0 <= i < entries.len() ==> marks_agree(
            #[trigger] marks[i],
            entries[i],
            opts,
            depth,
            ancestor_matched,
        )
}

fn matches_one_of(patterns: &Vec<GlobPattern>, name: &str) -> (r: bool)
    ensures
        r == matches_any(patterns@, name@),
{
    let mut k: usize = 0;
    while k < patterns.len()
        invariant
            k <= patterns@.len(),
            forall|j: int| 0 <= j < k ==> !glob_matches(#[trigger] patterns@[j]@, name@),
        decreases patterns@.len() - k,
    {
        if patterns[k].matches(name) {
            return true;
        }
        k = k + 1;
    }
    false
}

fn passes(e: &Entry, opts: &Opts, depth: u64) -> (r: bool)
    ensures
        r == passes_filters(*e, *opts, depth as nat),
{
    let name = e.name.as_str();
    let hidden = name.unicode_len() > 0 && name.get_char(0) == '.';
    if !opts.show_hidden && hidden {
        return false;
    }
    if opts.dir_only && !e.is_dir {
        return false;
    }
    if let Some(max) = opts.level {
        if depth > max as u64 {
            return false;
        }
    }
    !matches_one_of(&opts.exclude_patterns, name)
}

/// Decides `e` at `depth`, and everything below it that is looked into.
fn mark_entry(e: &Entry, opts: &Opts, depth: u64, ancestor_matched: bool) -> (m: Marks)
    requires
        depth + tree_size(e.children@) < u64::MAX,
    ensures
        marks_agree(m, *e, *opts, depth as nat, ancestor_matched),
    decreases e,
{
    if !passes(e, opts, depth) {
        return Marks { visible: false, highlighted: false, children: Vec::new() };
    }
    let matched = matches_one_of(&opts.patterns, e.name.as_str());
    let mut visible = opts.patterns.len() == 0 || matched || ancestor_matched;
    let mut children: Vec<Marks> = Vec::new();
    if e.is_dir {
        let below = ancestor_matched || matched;
        let mut i: usize = 0;
        while i < e.children.len()
            invariant
                i <= e.children@.len(),
                below == (ancestor_matched || name_matched(*e, *opts)),
                depth + tree_size(e.children@) < u64::MAX,
                passes_filters(*e, *opts, depth as nat),
                children@.len() == i,
                forall|j: int|
                    0 <= j < i ==> marks_agree(
                        #[trigger] children@[j],
                        e.children@[j],
                        *opts,
                        depth as nat + 1,
                        below,
                    ),
                visible == (opts.patterns@.len() == 0 || name_matched(*e, *opts)
                    || ancestor_matched || exists|j: int|
                    0 <= j < i && is_visible(
                        #[trigger] e.children@[j],
                        *opts,
                        depth as nat + 1,
                        below,
                    )),
            decreases e.children@.len() - i,
        {
            proof {
                lemma_child_size(e.children@, i as int);
            }
            let child = mark_entry(&e.children[i], opts, depth + 1, below);
            if child.visible {
                visible = true;
            }
            children.push(child);
            i = i + 1;
        }
    }
    Marks { visible, highlighted: matched, children }
}

/// Decides each of the root's entries (at depth 1) and what lies below.
pub fn resolve(entries: &Vec<Entry>, opts: &Opts) -> (r: Vec<Marks>)
    requires
        tree_size(entries@) < u64::MAX,
    ensures
        all_marks_agree(r@, entries@, *opts, 1, false),
{
    let mut marks: Vec<Marks> = Vec::new();
    let mut i: usize = 0;
    while i < entries.len()
        invariant
            i <= entries@.len(),
            tree_size(entries@) < u64::MAX,
            marks@.len() == i,
            forall|j: int|
                0 <= j < i ==> marks_agree(#[trigger] marks@[j], entries@[j], *opts, 1, false),
        decreases entries@.len() - i,
    {
        proof {
            lemma_child_size(entries@, i as int);
        }
        let m = mark_entry(&entries[i], opts, 1, false);
        marks.push(m);
        i = i + 1;
    }
    marks
}

/// Whether `path` (names from `entries` down) leads to a listed entry.
/// `depth` and `ancestor_matched` are those of `entries`.
pub open spec fn in_visibility_set(
    entries: Seq<Entry>,
    opts: Opts,
    depth: nat,
    ancestor_matched: bool,
    path: Seq<Seq<char>>,
) -> bool
    decreases path.len(),
{
    path.len() > 0 && exists|i: int|
        0 <= i < entries.len() && #[trigger] entries[i].name@ == path[0] && if path.len() == 1 {
            is_visible(entries[i], opts, depth, ancestor_matched)
        } else {
            passes_filters(entries[i], opts, depth) && entries[i].is_dir && in_visibility_set(
                entries[i].children@,
                opts,
                depth + 1,
                ancestor_matched || name_matched(entries[i], opts),
                path.drop_first(),
            )
        }
}

/// Whether `path` leads to a highlighted entry.
pub open spec fn in_highlight_set(
    entries: Seq<Entry>,
    opts: Opts,
    depth: nat,
    ancestor_matched: bool,
    path: Seq<Seq<char>>,
) -> bool
    decreases path.len(),
{
    path.len() > 0 && exists|i: int|
        0 <= i < entries.len() && #[trigger] entries[i].name@ == path[0] && if path.len() == 1 {
            is_highlighted(entries[i], opts, depth)
        } else {
            passes_filters(entries[i], opts, depth) && entries[i].is_dir && in_highlight_set(
                entries[i].children@,
                opts,
                depth + 1,
                ancestor_matched || name_matched(entries[i], opts),
                path.drop_first(),
            )
        }
}

/// Whether every entry along `path` passes the filters.
pub open spec fn in_filtered_set(
    entries: Seq<Entry>,
    opts: Opts,
    depth: nat,
    path: Seq<Seq<char>>,
) -> bool
    decreases path.len(),
{
    path.len() > 0 && exists|i: int|
        0 <= i < entries.len() && #[trigger] entries[i].name@ == path[0] && passes_filters(
            entries[i],
            opts,
            depth,
        ) && (path.len() == 1 || entries[i].is_dir && in_filtered_set(
            entries[i].children@,
            opts,
            depth + 1,
            path.drop_first(),
        ))
}

/// The paths of all listed entries below the root.
pub open spec fn visibility_set(entries: Seq<Entry>, opts: Opts) -> Set<Seq<Seq<char>>> {
    Set::new(|path: Seq<Seq<char>>| in_visibility_set(entries, opts, 1, false, path))
}

/// The paths of all highlighted entries below the root.
pub open spec fn highlight_set(entries: Seq<Entry>, opts: Opts) -> Set<Seq<Seq<char>>> {
    Set::new(|path: Seq<Seq<char>>| in_highlight_set(entries, opts, 1, false, path))
}

/// The paths of all entries below the root that pass the filters, as do
/// all their ancestors.
pub open spec fn filtered_set(entries: Seq<Entry>, opts: Opts) -> Set<Seq<Seq<char>>> {
    Set::new(|path: Seq<Seq<char>>| in_filtered_set(entries, opts, 1, path))
}

proof fn lemma_no_patterns_path(
    entries: Seq<Entry>,
    opts: Opts,
    depth: nat,
    ancestor_matched: bool,
    path: Seq<Seq<char>>,
)
    requires
        opts.patterns@.len() == 0,
    ensures
        in_visibility_set(entries, opts, depth, ancestor_matched, path) == in_filtered_set(
            entries,
            opts,
            depth,
            path,
        ),
    decreases path.len(),
{
    if path.len() > 1 {
        assert forall|i: int| 0 <= i < entries.len() implies in_visibility_set(
            entries[i].children@,
            opts,
            depth + 1,
            ancestor_matched || name_matched(entries[i], opts),
            path.drop_first(),
        ) == in_filtered_set(entries[i].children@, opts, depth + 1, path.drop_first()) by {
            lemma_no_patterns_path(
                entries[i].children@,
                opts,
                depth + 1,
                ancestor_matched || name_matched(entries[i], opts),
                path.drop_first(),
            );
        }
    }
}

/// Without include patterns, an entry is listed exactly when it and all its
/// ancestors pass the filters on hidden names, directories only, depth and
/// exclude patterns.
pub proof fn lemma_no_patterns_lists_filtered(entries: Seq<Entry>, opts: Opts)
    requires
        opts.patterns@.len() == 0,
    ensures
        visibility_set(entries, opts) == filtered_set(entries, opts),
{
    assert forall|path: Seq<Seq<char>>|
        visibility_set(entries, opts).contains(path) == filtered_set(entries, opts).contains(
            path,
        ) by {
        lemma_no_patterns_path(entries, opts, 1, false, path);
    }
    assert(visibility_set(entries, opts) =~= filtered_set(entries, opts));
}

proof fn lemma_highlight_prefix_visible(
    entries: Seq<Entry>,
    opts: Opts,
    depth: nat,
    ancestor_matched: bool,
    path: Seq<Seq<char>>,
    n: int,
)
    requires
        in_highlight_set(entries, opts, depth, ancestor_matched, path),
        1 <= n <= path.len(),
    ensures
        in_visibility_set(entries, opts, depth, ancestor_matched, path.subrange(0, n)),
    decreases path.len(),
{
    let i = choose|i: int|
        0 <= i < entries.len() && #[trigger] entries[i].name@ == path[0] && if path.len() == 1 {
            is_highlighted(entries[i], opts, depth)
        } else {
            passes_filters(entries[i], opts, depth) && entries[i].is_dir && in_highlight_set(
                entries[i].children@,
                opts,
                depth + 1,
                ancestor_matched || name_matched(entries[i], opts),
                path.drop_first(),
            )
        };
    let q = path.subrange(0, n);
    assert(q[0] == path[0]);
    if path.len() == 1 {
        assert(q.len() == 1);
    } else {
        let e = entries[i];
        let below = ancestor_matched || name_matched(e, opts);
        let rest = path.drop_first();
        lemma_highlight_prefix_visible(e.children@, opts, depth + 1, below, rest, 1);
        let j = choose|j: int|
            0 <= j < e.children@.len() && #[trigger] e.children@[j].name@ == rest.subrange(0, 1)[0]
                && is_visible(e.children@[j], opts, depth + 1, below);
        assert(is_visible(e, opts, depth, ancestor_matched));
        if n > 1 {
            lemma_highlight_prefix_visible(e.children@, opts, depth + 1, below, rest, n - 1);
            assert(q.drop_first() =~= rest.subrange(0, n - 1));
        }
    }
}

proof fn lemma_highlight_named(
    entries: Seq<Entry>,
    opts: Opts,
    depth: nat,
    ancestor_matched: bool,
    path: Seq<Seq<char>>,
)
    requires
        in_highlight_set(entries, opts, depth, ancestor_matched, path),
    ensures
        matches_any(opts.patterns@, path.last()),
    decreases path.len(),
{
    if path.len() > 1 {
        let i = choose|i: int|
            0 <= i < entries.len() && #[trigger] entries[i].name@ == path[0]
                && passes_filters(entries[i], opts, depth) && entries[i].is_dir
                && in_highlight_set(
                entries[i].children@,
                opts,
                depth + 1,
                ancestor_matched || name_matched(entries[i], opts),
                path.drop_first(),
            );
        lemma_highlight_named(
            entries[i].children@,
            opts,
            depth + 1,
            ancestor_matched || name_matched(entries[i], opts),
            path.drop_first(),
        );
    }
}

/// Every ancestor of a highlighted entry is listed, and an entry is
/// highlighted only where its own name matches an include pattern: an
/// ancestor that is listed only because of what it holds is not.
pub proof fn lemma_highlighted_ancestors_listed(
    entries: Seq<Entry>,
    opts: Opts,
    path: Seq<Seq<char>>,
    n: int,
)
    requires
        highlight_set(entries, opts).contains(path),
        1 <= n <= path.len(),
    ensures
        visibility_set(entries, opts).contains(path.subrange(0, n)),
        highlight_set(entries, opts).contains(path.subrange(0, n)) ==> matches_any(
            opts.patterns@,
            path[n - 1],
        ),
{
    lemma_highlight_prefix_visible(entries, opts, 1, false, path, n);
    if highlight_set(entries, opts).contains(path.subrange(0, n)) {
        lemma_highlight_named(entries, opts, 1, false, path.subrange(0, n));
    }
}

} // verus!
