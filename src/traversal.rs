//! Rendering: the root, one line for each listed entry in listing order
//! with what it holds beneath it, and a closing count of directories and
//! files.

use crate::display::{entry_line, format_entry_line, furthest_view, join_path, push_joined};
use crate::entry::{lemma_child_size, tree_size, Entry};
use crate::order::{
    lemma_position_leq_total, listed_before, position_leq, same_rank, sort_positions,
};
use crate::resolve::{
    all_marks_agree, is_highlighted, is_visible, marks_agree, matches_any, name_matched, resolve,
    Marks,
};
use crate::glob_pattern::{glob_matches, GlobPattern};
use crate::root::Opts;
use crate::text::{decimal, push_all, push_char, push_decimal};
use vstd::prelude::*;
use vstd::relations::sorted_by;
use vstd::seq_lib::lemma_sorted_unique;

verus! {

/// Positions, among the first `n` of `entries`, of the listed ones, in
/// increasing order.
pub open spec fn listed_positions(
    entries: Seq<Entry>,
    opts: Opts,
    depth: nat,
    ancestor_matched: bool,
    n: int,
) -> Seq<usize>
    decreases n,
{
    if n <= 0 {
        Seq::empty()
    } else {
        let rest = listed_positions(entries, opts, depth, ancestor_matched, n - 1);
        if is_visible(entries[n - 1], opts, depth, ancestor_matched) {
            rest.push((n - 1) as usize)
        } else {
            rest
        }
    }
}

/// The positions of the listed entries among `entries`, in the order they
/// are shown.
pub open spec fn listing(entries: Seq<Entry>, opts: Opts, depth: nat, ancestor_matched: bool) -> Seq<
    usize,
> {
    listed_positions(entries, opts, depth, ancestor_matched, entries.len() as int).sort_by(
        position_leq(entries, opts.sort_by_time),
    )
}

/// The smallest depth of a highlighted ancestor, once an entry at `level`
/// is taken into account.
pub open spec fn furthest_after(furthest: Option<nat>, level: nat, highlighted: bool) -> Option<
    nat,
> {
    if !highlighted {
        furthest
    } else {
        match furthest {
            Some(f) => if f < level {
                Some(f)
            } else {
                Some(level)
            },
            None => Some(level),
        }
    }
}

/// The lines of the listed entries among `entries`, each followed by the
/// lines of what it holds. `entries` are in the directory at
/// `parent_path`, at `depth` (1 for the root's own), below ancestors that
/// `indent` records.
pub open spec fn render_entries(
    entries: Seq<Entry>,
    opts: Opts,
    parent_path: Seq<char>,
    depth: nat,
    ancestor_matched: bool,
    indent: Seq<bool>,
    furthest: Option<nat>,
) -> Seq<char>
    decreases entries, 1nat, 0nat,
{
    render_from(
        entries,
        opts,
        parent_path,
        depth,
        ancestor_matched,
        indent,
        furthest,
        listing(entries, opts, depth, ancestor_matched),
        0,
    )
}

/// The line of `e`, listed in the directory at `parent_path`, followed by
/// the lines of what it holds.
pub open spec fn item_text(
    e: Entry,
    opts: Opts,
    parent_path: Seq<char>,
    depth: nat,
    ancestor_matched: bool,
    indent: Seq<bool>,
    furthest: Option<nat>,
    is_last: bool,
) -> Seq<char>
    decreases e, 0nat, 0nat,
{
    let highlight = is_highlighted(e, opts, depth);
    let f = furthest_after(furthest, indent.len(), highlight);
    let line = entry_line(e, opts, parent_path, indent, is_last, highlight, f) + seq!['\n'];
    if e.is_dir {
        line + render_entries(
            e.children@,
            opts,
            join_path(parent_path, e.name@),
            depth + 1,
            ancestor_matched || name_matched(e, opts),
            indent.push(is_last),
            f,
        )
    } else {
        line
    }
}

/// The lines of the entries at `order[k..]`, and of what they hold.
pub open spec fn render_from(
    entries: Seq<Entry>,
    opts: Opts,
    parent_path: Seq<char>,
    depth: nat,
    ancestor_matched: bool,
    indent: Seq<bool>,
    furthest: Option<nat>,
    order: Seq<usize>,
    k: nat,
) -> Seq<char>
    decreases entries, 0nat, order.len() - k,
{
    if k >= order.len() || order[k as int] >= entries.len() {
        Seq::empty()
    } else {
        item_text(
            entries[order[k as int] as int],
            opts,
            parent_path,
            depth,
            ancestor_matched,
            indent,
            furthest,
            k + 1 == order.len(),
        ) + render_from(
            entries,
            opts,
            parent_path,
            depth,
            ancestor_matched,
            indent,
            furthest,
            order,
            k + 1,
        )
    }
}

/// How many listed directories and listed files there are among `entries`
/// and below them.
pub open spec fn listed_counts(
    entries: Seq<Entry>,
    opts: Opts,
    depth: nat,
    ancestor_matched: bool,
) -> (nat, nat)
    decreases entries,
{
    if entries.len() == 0 {
        (0, 0)
    } else {
        let rest = listed_counts(entries.drop_last(), opts, depth, ancestor_matched);
        let e = entries.last();
        if !is_visible(e, opts, depth, ancestor_matched) {
            rest
        } else if e.is_dir {
            let below = listed_counts(
                e.children@,
                opts,
                depth + 1,
                ancestor_matched || name_matched(e, opts),
            );
            (rest.0 + 1 + below.0, rest.1 + below.1)
        } else {
            (rest.0, rest.1 + 1)
        }
    }
}

/// `n directories, m files`, singular where a count is one.
pub open spec fn summary_text(dirs: nat, files: nat) -> Seq<char> {
    decimal(dirs) + if dirs == 1 {
        seq![' ', 'd', 'i', 'r', 'e', 'c', 't', 'o', 'r', 'y', ',', ' ']
    } else {
        seq![' ', 'd', 'i', 'r', 'e', 'c', 't', 'o', 'r', 'i', 'e', 's', ',', ' ']
    } + decimal(files) + if files == 1 {
        seq![' ', 'f', 'i', 'l', 'e']
    } else {
        seq![' ', 'f', 'i', 'l', 'e', 's']
    }
}

/// The whole listing of the directory at `root_path`, shown as
/// `root_label`, holding `entries`.
pub open spec fn tree_text(
    root_label: Seq<char>,
    root_path: Seq<char>,
    entries: Seq<Entry>,
    opts: Opts,
) -> Seq<char> {
    let counts = listed_counts(entries, opts, 1, false);
    root_label + seq!['\n'] + render_entries(entries, opts, root_path, 1, false, Seq::empty(), None)
        + seq!['\n'] + summary_text(counts.0, counts.1) + seq!['\n']
}

proof fn lemma_listed_positions_increasing(
    entries: Seq<Entry>,
    opts: Opts,
    depth: nat,
    ancestor_matched: bool,
    n: int,
)
    requires
        0 <= n <= entries.len(),
        entries.len() <= usize::MAX,
    ensures
        forall|k: int|
            0 <= k < listed_positions(entries, opts, depth, ancestor_matched, n).len()
                ==> #[trigger] listed_positions(entries, opts, depth, ancestor_matched, n)[k] < n,
        forall|k: int, l: int|
            0 <= k < l < listed_positions(entries, opts, depth, ancestor_matched, n).len()
                ==> listed_positions(entries, opts, depth, ancestor_matched, n)[k]
                < listed_positions(entries, opts, depth, ancestor_matched, n)[l],
    decreases n,
{
    if n > 0 {
        lemma_listed_positions_increasing(entries, opts, depth, ancestor_matched, n - 1);
        let rest = listed_positions(entries, opts, depth, ancestor_matched, n - 1);
        let all = listed_positions(entries, opts, depth, ancestor_matched, n);
        assert(((n - 1) as usize) as int == n - 1);
        assert forall|k: int| 0 <= k < all.len() implies #[trigger] all[k] < n by {
            if k < rest.len() {
                assert(all[k] == rest[k]);
            }
        }
        assert forall|k: int, l: int| 0 <= k < l < all.len() implies all[k] < all[l] by {
            assert(all[k] == rest[k]);
            if l < rest.len() {
                assert(all[l] == rest[l]);
            }
        }
    }
}

/// Siblings are listed in sorted order, and in the only one: any
/// arrangement of the listed siblings that is sorted by `position_leq` is
/// the listing itself, so equal inputs always give the same listing.
pub proof fn lemma_listing_is_only_sorted_order(
    entries: Seq<Entry>,
    opts: Opts,
    depth: nat,
    ancestor_matched: bool,
    other: Seq<usize>,
)
    requires
        other.to_multiset() == listed_positions(
            entries,
            opts,
            depth,
            ancestor_matched,
            entries.len() as int,
        ).to_multiset(),
        sorted_by(other, position_leq(entries, opts.sort_by_time)),
    ensures
        sorted_by(listing(entries, opts, depth, ancestor_matched), position_leq(entries, opts.sort_by_time)),
        other == listing(entries, opts, depth, ancestor_matched),
{
    let leq = position_leq(entries, opts.sort_by_time);
    let listed = listed_positions(entries, opts, depth, ancestor_matched, entries.len() as int);
    lemma_position_leq_total(entries, opts.sort_by_time);
    listed.lemma_sort_by_ensures(leq);
    lemma_sorted_unique(other, listed.sort_by(leq), leq);
}

/// `x` may come before its sibling `y`: it is listed first, or ranks the
/// same; and `x` is no file listed before the directory `y`.
pub open spec fn listed_in_order(x: Entry, y: Entry, by_time: bool) -> bool {
    &&& listed_before(x, y, by_time) || same_rank(x, y, by_time)
    &&& !(!x.is_dir && y.is_dir)
}

/// The listing holds each listed sibling once, and none other; of two
/// siblings in it, the first is listed before the second by name (and
/// time, if asked) or ranks the same; every directory comes before every
/// other entry.
pub proof fn lemma_listing_sorted_directories_first(
    entries: Seq<Entry>,
    opts: Opts,
    depth: nat,
    ancestor_matched: bool,
)
    ensures
        listing(entries, opts, depth, ancestor_matched).to_multiset() == listed_positions(
            entries,
            opts,
            depth,
            ancestor_matched,
            entries.len() as int,
        ).to_multiset(),
        forall|a: int, b: int|
            0 <= a < b < listing(entries, opts, depth, ancestor_matched).len()
                ==> #[trigger] listed_in_order(
                entries[listing(entries, opts, depth, ancestor_matched)[a] as int],
                entries[listing(entries, opts, depth, ancestor_matched)[b] as int],
                opts.sort_by_time,
            ),
{
    let leq = position_leq(entries, opts.sort_by_time);
    let listed = listed_positions(entries, opts, depth, ancestor_matched, entries.len() as int);
    lemma_position_leq_total(entries, opts.sort_by_time);
    listed.lemma_sort_by_ensures(leq);
    let l = listing(entries, opts, depth, ancestor_matched);
    assert forall|a: int, b: int| 0 <= a < b < l.len() implies #[trigger] listed_in_order(
        entries[l[a] as int],
        entries[l[b] as int],
        opts.sort_by_time,
    ) by {
        assert(leq(l[a], l[b]));
    }
}

/// `wider` is `opts` with the exclude pattern `x` added at the end.
pub open spec fn adds_exclude(wider: Opts, opts: Opts, x: GlobPattern) -> bool {
    &&& wider.exclude_patterns@ == opts.exclude_patterns@.push(x)
    &&& wider.patterns@ == opts.patterns@
    &&& wider.show_hidden == opts.show_hidden
    &&& wider.dir_only == opts.dir_only
    &&& wider.level == opts.level
    &&& wider.sort_by_time == opts.sort_by_time
}

/// No name among `entries`, nor below them, matches the pattern text `x`.
pub open spec fn matches_nowhere(entries: Seq<Entry>, x: Seq<char>) -> bool
    decreases entries,
{
    forall|i: int|
        0 <= i < entries.len() ==> !glob_matches(x, (#[trigger] entries[i]).name@)
            && matches_nowhere(entries[i].children@, x)
}

proof fn lemma_exclude_verdict(opts: Opts, wider: Opts, x: GlobPattern, name: Seq<char>)
    requires
        adds_exclude(wider, opts, x),
    ensures
        matches_any(wider.exclude_patterns@, name) == (matches_any(opts.exclude_patterns@, name)
            || glob_matches(x@, name)),
{
    let old_pats = opts.exclude_patterns@;
    let new_pats = wider.exclude_patterns@;
    if matches_any(new_pats, name) {
        let k = choose|k: int| 0 <= k < new_pats.len() && glob_matches(#[trigger] new_pats[k]@, name);
        if k < old_pats.len() {
            assert(new_pats[k] == old_pats[k]);
        }
    }
    if matches_any(old_pats, name) {
        let k = choose|k: int| 0 <= k < old_pats.len() && glob_matches(#[trigger] old_pats[k]@, name);
        assert(new_pats[k] == old_pats[k]);
    }
    if glob_matches(x@, name) {
        assert(new_pats[old_pats.len() as int] == x);
    }
}

proof fn lemma_visible_unaffected(
    e: Entry,
    opts: Opts,
    wider: Opts,
    x: GlobPattern,
    depth: nat,
    ancestor_matched: bool,
)
    requires
        adds_exclude(wider, opts, x),
        !glob_matches(x@, e.name@),
        matches_nowhere(e.children@, x@),
    ensures
        is_visible(e, wider, depth, ancestor_matched) == is_visible(e, opts, depth, ancestor_matched),
    decreases e,
{
    lemma_exclude_verdict(opts, wider, x, e.name@);
    let below = ancestor_matched || name_matched(e, opts);
    assert forall|i: int| 0 <= i < e.children@.len() implies is_visible(
        #[trigger] e.children@[i],
        wider,
        depth + 1,
        below,
    ) == is_visible(e.children@[i], opts, depth + 1, below) by {
        let c = e.children@[i];
        assert(!glob_matches(x@, c.name@) && matches_nowhere(c.children@, x@));
        lemma_visible_unaffected(c, opts, wider, x, depth + 1, below);
    }
}

proof fn lemma_counts_unaffected(
    entries: Seq<Entry>,
    opts: Opts,
    wider: Opts,
    x: GlobPattern,
    depth: nat,
    ancestor_matched: bool,
)
    requires
        adds_exclude(wider, opts, x),
        matches_nowhere(entries, x@),
    ensures
        listed_counts(entries, wider, depth, ancestor_matched) == listed_counts(
            entries,
            opts,
            depth,
            ancestor_matched,
        ),
    decreases entries,
{
    if entries.len() > 0 {
        let rest = entries.drop_last();
        let e = entries.last();
        assert forall|i: int| 0 <= i < rest.len() implies !glob_matches(x@, (#[trigger] rest[i]).name@)
            && matches_nowhere(rest[i].children@, x@) by {
            assert(rest[i] == entries[i]);
        }
        assert(entries[entries.len() - 1] == e);
        lemma_counts_unaffected(rest, opts, wider, x, depth, ancestor_matched);
        lemma_visible_unaffected(e, opts, wider, x, depth, ancestor_matched);
        lemma_counts_unaffected(
            e.children@,
            opts,
            wider,
            x,
            depth + 1,
            ancestor_matched || name_matched(e, opts),
        );
    }
}

proof fn lemma_exclude_one_file_at(
    entries: Seq<Entry>,
    opts: Opts,
    wider: Opts,
    x: GlobPattern,
    i: int,
    depth: nat,
    ancestor_matched: bool,
)
    requires
        adds_exclude(wider, opts, x),
        0 <= i < entries.len(),
        !entries[i].is_dir,
        glob_matches(x@, entries[i].name@),
        is_visible(entries[i], opts, depth, ancestor_matched),
        forall|j: int| 0 <= j < entries.len() && j != i ==> !glob_matches(x@, #[trigger] entries[j].name@),
        forall|j: int| 0 <= j < entries.len() ==> matches_nowhere(#[trigger] entries[j].children@, x@),
    ensures
        listed_counts(entries, wider, depth, ancestor_matched).0 == listed_counts(
            entries,
            opts,
            depth,
            ancestor_matched,
        ).0,
        listed_counts(entries, wider, depth, ancestor_matched).1 + 1 == listed_counts(
            entries,
            opts,
            depth,
            ancestor_matched,
        ).1,
    decreases entries.len(),
{
    let n = entries.len() - 1;
    let rest = entries.drop_last();
    let e = entries.last();
    assert(entries[n] == e);
    lemma_exclude_verdict(opts, wider, x, entries[i].name@);
    if i == n {
        assert forall|j: int| 0 <= j < rest.len() implies !glob_matches(x@, (#[trigger] rest[j]).name@)
            && matches_nowhere(rest[j].children@, x@) by {
            assert(rest[j] == entries[j]);
        }
        lemma_counts_unaffected(rest, opts, wider, x, depth, ancestor_matched);
    } else {
        assert forall|j: int| 0 <= j < rest.len() && j != i implies !glob_matches(
            x@,
            #[trigger] rest[j].name@,
        ) by {
            assert(rest[j] == entries[j]);
        }
        assert forall|j: int| 0 <= j < rest.len() implies matches_nowhere(
            #[trigger] rest[j].children@,
            x@,
        ) by {
            assert(rest[j] == entries[j]);
        }
        assert(rest[i] == entries[i]);
        lemma_exclude_one_file_at(rest, opts, wider, x, i, depth, ancestor_matched);
        assert(matches_nowhere(e.children@, x@));
        lemma_visible_unaffected(e, opts, wider, x, depth, ancestor_matched);
        lemma_counts_unaffected(
            e.children@,
            opts,
            wider,
            x,
            depth + 1,
            ancestor_matched || name_matched(e, opts),
        );
    }
}

/// Adding an exclude pattern that matches the name of one listed file, and
/// no other name at any level, takes that file out of the listing and one
/// off the file count; every other entry is listed as before and the
/// directory count is unchanged.
pub proof fn lemma_exclude_one_file(
    entries: Seq<Entry>,
    opts: Opts,
    wider: Opts,
    x: GlobPattern,
    i: int,
)
    requires
        adds_exclude(wider, opts, x),
        0 <= i < entries.len(),
        !entries[i].is_dir,
        glob_matches(x@, entries[i].name@),
        is_visible(entries[i], opts, 1, false),
        forall|j: int| 0 <= j < entries.len() && j != i ==> !glob_matches(x@, #[trigger] entries[j].name@),
        forall|j: int| 0 <= j < entries.len() ==> matches_nowhere(#[trigger] entries[j].children@, x@),
    ensures
        !is_visible(entries[i], wider, 1, false),
        forall|j: int|
            0 <= j < entries.len() && j != i ==> is_visible(#[trigger] entries[j], wider, 1, false)
                == is_visible(entries[j], opts, 1, false),
        listed_counts(entries, wider, 1, false).0 == listed_counts(entries, opts, 1, false).0,
        listed_counts(entries, wider, 1, false).1 + 1 == listed_counts(entries, opts, 1, false).1,
{
    lemma_exclude_verdict(opts, wider, x, entries[i].name@);
    assert forall|j: int| 0 <= j < entries.len() && j != i implies is_visible(
        #[trigger] entries[j],
        wider,
        1,
        false,
    ) == is_visible(entries[j], opts, 1, false) by {
        lemma_visible_unaffected(entries[j], opts, wider, x, 1, false);
    }
    lemma_exclude_one_file_at(entries, opts, wider, x, i, 1, false);
}

proof fn lemma_tree_size_prefix(entries: Seq<Entry>, n: int)
    requires
        0 <= n <= entries.len(),
    ensures
        tree_size(entries.subrange(0, n)) <= tree_size(entries),
    decreases entries.len(),
{
    if n < entries.len() {
        assert(entries.drop_last().subrange(0, n) =~= entries.subrange(0, n));
        lemma_tree_size_prefix(entries.drop_last(), n);
    } else {
        assert(entries.subrange(0, n) =~= entries);
    }
}

proof fn lemma_counts_bounded(entries: Seq<Entry>, opts: Opts, depth: nat, ancestor_matched: bool)
    ensures
        listed_counts(entries, opts, depth, ancestor_matched).0 + listed_counts(
            entries,
            opts,
            depth,
            ancestor_matched,
        ).1 <= tree_size(entries),
    decreases entries,
{
    if entries.len() > 0 {
        let e = entries.last();
        lemma_counts_bounded(entries.drop_last(), opts, depth, ancestor_matched);
        lemma_counts_bounded(
            e.children@,
            opts,
            depth + 1,
            ancestor_matched || name_matched(e, opts),
        );
    }
}

/// Counts the listed directories and files among `entries` and below.
fn count_listed(
    entries: &Vec<Entry>,
    marks: &Vec<Marks>,
    Ghost(opts): Ghost<Opts>,
    Ghost(depth): Ghost<nat>,
    Ghost(ancestor_matched): Ghost<bool>,
) -> (r: (u64, u64))
    requires
        all_marks_agree(marks@, entries@, opts, depth, ancestor_matched),
        tree_size(entries@) < u64::MAX,
    ensures
        r.0 == listed_counts(entries@, opts, depth, ancestor_matched).0,
        r.1 == listed_counts(entries@, opts, depth, ancestor_matched).1,
    decreases entries@,
{
    let mut dirs: u64 = 0;
    let mut files: u64 = 0;
    let mut i: usize = 0;
    while i < entries.len()
        invariant
            i <= entries@.len(),
            all_marks_agree(marks@, entries@, opts, depth, ancestor_matched),
            tree_size(entries@) < u64::MAX,
            dirs == listed_counts(entries@.subrange(0, i as int), opts, depth, ancestor_matched).0,
            files == listed_counts(entries@.subrange(0, i as int), opts, depth, ancestor_matched).1,
        decreases entries@.len() - i,
    {
        let ghost prefix = entries@.subrange(0, i + 1);
        proof {
            assert(prefix.drop_last() =~= entries@.subrange(0, i as int));
            assert(prefix.last() == entries@[i as int]);
            lemma_counts_bounded(prefix, opts, depth, ancestor_matched);
            lemma_tree_size_prefix(entries@, i + 1);
            lemma_child_size(entries@, i as int);
        }
        let e = &entries[i];
        let m = &marks[i];
        if m.visible {
            if e.is_dir {
                let ghost child_depth = depth + 1;
                let ghost child_matched = ancestor_matched || name_matched(*e, opts);
                let below = count_listed(
                    &e.children,
                    &m.children,
                    Ghost(opts),
                    Ghost(child_depth),
                    Ghost(child_matched),
                );
                dirs = dirs + 1 + below.0;
                files = files + below.1;
            } else {
                files = files + 1;
            }
        }
        i = i + 1;
    }
    assert(entries@.subrange(0, i as int) =~= entries@);
    (dirs, files)
}

fn push_summary(out: &mut String, dirs: u64, files: u64)
    ensures
        final(out)@ == old(out)@ + summary_text(dirs as nat, files as nat),
{
    let ghost start = out@;
    push_decimal(out, dirs);
    push_char(out, ' ');
    push_char(out, 'd');
    push_char(out, 'i');
    push_char(out, 'r');
    push_char(out, 'e');
    push_char(out, 'c');
    push_char(out, 't');
    push_char(out, 'o');
    push_char(out, 'r');
    if dirs == 1 {
        push_char(out, 'y');
    } else {
        push_char(out, 'i');
        push_char(out, 'e');
        push_char(out, 's');
    }
    push_char(out, ',');
    push_char(out, ' ');
    push_decimal(out, files);
    push_char(out, ' ');
    push_char(out, 'f');
    push_char(out, 'i');
    push_char(out, 'l');
    push_char(out, 'e');
    if files != 1 {
        push_char(out, 's');
    }
    assert(out@ =~= start + summary_text(dirs as nat, files as nat));
}

/// The positions of the listed entries among `entries`, in listing order.
fn listed_order(
    entries: &Vec<Entry>,
    marks: &Vec<Marks>,
    opts: &Opts,
    Ghost(depth): Ghost<nat>,
    Ghost(ancestor_matched): Ghost<bool>,
) -> (r: Vec<usize>)
    requires
        all_marks_agree(marks@, entries@, *opts, depth, ancestor_matched),
    ensures
        r@ == listing(entries@, *opts, depth, ancestor_matched),
        forall|k: int| 0 <= k < r@.len() ==> #[trigger] r@[k] < entries@.len(),
        forall|k: int|
            0 <= k < r@.len() ==> is_visible(
                #[trigger] entries@[r@[k] as int],
                *opts,
                depth,
                ancestor_matched,
            ),
{
    let mut positions: Vec<usize> = Vec::new();
    let mut i: usize = 0;
    while i < entries.len()
        invariant
            i <= entries@.len(),
            all_marks_agree(marks@, entries@, *opts, depth, ancestor_matched),
            positions@ == listed_positions(entries@, *opts, depth, ancestor_matched, i as int),
            forall|k: int| 0 <= k < positions@.len() ==> #[trigger] positions@[k] < entries@.len(),
            forall|k: int|
                0 <= k < positions@.len() ==> is_visible(
                    #[trigger] entries@[positions@[k] as int],
                    *opts,
                    depth,
                    ancestor_matched,
                ),
        decreases entries@.len() - i,
    {
        proof {
            assert(marks_agree(marks@[i as int], entries@[i as int], *opts, depth, ancestor_matched));
            assert(((i + 1 - 1) as usize) == i);
        }
        let ghost old_positions = positions@;
        if marks[i].visible {
            assert(is_visible(entries@[i as int], *opts, depth, ancestor_matched));
            positions.push(i);
            assert(positions@ == old_positions.push(i));
            assert(positions@[old_positions.len() as int] == i);
        }
        assert forall|k: int| 0 <= k < positions@.len() implies is_visible(
            #[trigger] entries@[positions@[k] as int],
            *opts,
            depth,
            ancestor_matched,
        ) by {
            if k < old_positions.len() {
                assert(positions@[k] == old_positions[k]);
            }
        }
        i = i + 1;
    }
    proof {
        lemma_listed_positions_increasing(
            entries@,
            *opts,
            depth,
            ancestor_matched,
            entries@.len() as int,
        );
    }
    let order = sort_positions(entries, &positions, opts.sort_by_time);
    proof {
        broadcast use vstd::seq_lib::group_to_multiset_ensures;

        let leq = position_leq(entries@, opts.sort_by_time);
        lemma_position_leq_total(entries@, opts.sort_by_time);
        positions@.lemma_sort_by_ensures(leq);
        lemma_sorted_unique(order@, positions@.sort_by(leq), leq);
        assert forall|k: int| 0 <= k < order@.len() implies is_visible(
            #[trigger] entries@[order@[k] as int],
            *opts,
            depth,
            ancestor_matched,
        ) by {
            assert(order@.to_multiset().count(order@[k]) > 0);
            assert(positions@.contains(order@[k]));
        }
    }
    order
}

/// Appends the line of `e` and the lines of what it holds.
fn render_item(
    e: &Entry,
    m: &Marks,
    opts: &Opts,
    parent_path: &str,
    Ghost(depth): Ghost<nat>,
    Ghost(ancestor_matched): Ghost<bool>,
    indent: &Vec<bool>,
    furthest: Option<usize>,
    is_last: bool,
    out: &mut String,
)
    requires
        marks_agree(*m, *e, *opts, depth, ancestor_matched),
        is_visible(*e, *opts, depth, ancestor_matched),
    ensures
        final(out)@ == old(out)@ + item_text(
            *e,
            *opts,
            parent_path@,
            depth,
            ancestor_matched,
            indent@,
            furthest_view(furthest),
            is_last,
        ),
    decreases *e, 0nat,
{
    let highlight = m.highlighted;
    let level = indent.len();
    let f = if highlight {
        match furthest {
            Some(x) => if x < level {
                Some(x)
            } else {
                Some(level)
            },
            None => Some(level),
        }
    } else {
        furthest
    };
    assert(furthest_view(f) == furthest_after(furthest_view(furthest), level as nat, highlight));
    let ghost start = out@;
    let line = format_entry_line(e, opts, parent_path, indent, is_last, highlight, f);
    let ghost line_text = line@ + seq!['\n'];
    push_all(out, line.as_str());
    push_char(out, '\n');
    assert(out@ =~= start + line_text);
    if e.is_dir {
        let mut child_path = String::new();
        push_joined(&mut child_path, parent_path, e.name.as_str());
        let mut next = indent.clone();
        assert(next@ =~= indent@);
        next.push(is_last);
        let ghost child_depth = depth + 1;
        let ghost child_matched = ancestor_matched || name_matched(*e, *opts);
        let ghost mid = out@;
        render_level(
            &e.children,
            &m.children,
            opts,
            child_path.as_str(),
            Ghost(child_depth),
            Ghost(child_matched),
            &next,
            f,
            out,
        );
        assert(out@ =~= start + (line_text + render_entries(
            e.children@,
            *opts,
            join_path(parent_path@, e.name@),
            depth + 1,
            ancestor_matched || name_matched(*e, *opts),
            indent@.push(is_last),
            furthest_view(f),
        )));
    }
}

/// Appends the lines of the listed entries among `entries` and below them,
/// and tells whether any entry was listed.
fn render_level(
    entries: &Vec<Entry>,
    marks: &Vec<Marks>,
    opts: &Opts,
    parent_path: &str,
    Ghost(depth): Ghost<nat>,
    Ghost(ancestor_matched): Ghost<bool>,
    indent: &Vec<bool>,
    furthest: Option<usize>,
    out: &mut String,
) -> (found: bool)
    requires
        all_marks_agree(marks@, entries@, *opts, depth, ancestor_matched),
    ensures
        found == (listing(entries@, *opts, depth, ancestor_matched).len() > 0),
        final(out)@ == old(out)@ + render_entries(
            entries@,
            *opts,
            parent_path@,
            depth,
            ancestor_matched,
            indent@,
            furthest_view(furthest),
        ),
    decreases entries@, 1nat,
{
    let order = listed_order(entries, marks, opts, Ghost(depth), Ghost(ancestor_matched));
    let ghost fv = furthest_view(furthest);
    let ghost whole = render_from(
        entries@,
        *opts,
        parent_path@,
        depth,
        ancestor_matched,
        indent@,
        fv,
        order@,
        0,
    );
    let mut k: usize = 0;
    while k < order.len()
        invariant
            k <= order@.len(),
            order@ == listing(entries@, *opts, depth, ancestor_matched),
            forall|j: int| 0 <= j < order@.len() ==> #[trigger] order@[j] < entries@.len(),
            forall|j: int|
                0 <= j < order@.len() ==> is_visible(
                    #[trigger] entries@[order@[j] as int],
                    *opts,
                    depth,
                    ancestor_matched,
                ),
            all_marks_agree(marks@, entries@, *opts, depth, ancestor_matched),
            fv == furthest_view(furthest),
            old(out)@ + whole == out@ + render_from(
                entries@,
                *opts,
                parent_path@,
                depth,
                ancestor_matched,
                indent@,
                fv,
                order@,
                k as nat,
            ),
        decreases order@.len() - k,
    {
        let pos = order[k];
        assert(is_visible(entries@[order@[k as int] as int], *opts, depth, ancestor_matched));
        assert(marks_agree(marks@[pos as int], entries@[pos as int], *opts, depth, ancestor_matched));
        let ghost before = out@;
        render_item(
            &entries[pos],
            &marks[pos],
            opts,
            parent_path,
            Ghost(depth),
            Ghost(ancestor_matched),
            indent,
            furthest,
            k + 1 == order.len(),
            out,
        );
        k = k + 1;
    }
    order.len() > 0
}

/// The whole listing of the directory at `root_path`, shown as
/// `root_label`, holding `entries`: the root's line, a line for each listed
/// entry, an empty line and the count of listed directories and files.
pub fn render_tree(root_label: &str, root_path: &str, entries: &Vec<Entry>, opts: &Opts) -> (r:
    String)
    requires
        tree_size(entries@) < u64::MAX,
    ensures
        r@ == tree_text(root_label@, root_path@, entries@, *opts),
{
    let marks = resolve(entries, opts);
    let mut out = String::new();
    push_all(&mut out, root_label);
    push_char(&mut out, '\n');
    let indent: Vec<bool> = Vec::new();
    render_level(&entries, &marks, opts, root_path, Ghost(1), Ghost(false), &indent, None, &mut out);
    let counts = count_listed(entries, &marks, Ghost(*opts), Ghost(1), Ghost(false));
    push_char(&mut out, '\n');
    push_summary(&mut out, counts.0, counts.1);
    push_char(&mut out, '\n');
    assert(indent@ =~= Seq::<bool>::empty());
    assert(out@ =~= tree_text(root_label@, root_path@, entries@, *opts));
    out
}

} // verus!
