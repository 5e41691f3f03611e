//! The order in which siblings are listed: directories before everything
//! else, then by modification time if asked (oldest first; an unreadable
//! time counts as the epoch), then by name.

use crate::entry::Entry;
use crate::utils::Timestamp;
use vstd::prelude::*;
use vstd::relations::{sorted_by, total_ordering};
use vstd::seq_lib::{to_multiset_build, to_multiset_insert};
use vstd::string::StrSliceExecFns;

verus! {

/// Lexicographic order on names, character by character.
pub open spec fn name_lt(a: Seq<char>, b: Seq<char>) -> bool
    decreases a.len(),
{
    if a.len() == 0 {
        b.len() > 0
    } else if b.len() == 0 {
        false
    } else if a[0] != b[0] {
        (a[0] as int) < (b[0] as int)
    } else {
        name_lt(a.drop_first(), b.drop_first())
    }
}

/// The time an entry is ordered by.
pub open spec fn time_key(e: Entry) -> Timestamp {
    match e.modified {
        Some(t) => t,
        None => Timestamp { secs: 0, nanos: 0 },
    }
}

pub open spec fn time_lt(a: Timestamp, b: Timestamp) -> bool {
    a.secs < b.secs || (a.secs == b.secs && a.nanos < b.nanos)
}

/// `a` is listed before its sibling `b`.
pub open spec fn listed_before(a: Entry, b: Entry, by_time: bool) -> bool {
    if a.is_dir != b.is_dir {
        a.is_dir
    } else if by_time && time_key(a) != time_key(b) {
        time_lt(time_key(a), time_key(b))
    } else {
        name_lt(a.name@, b.name@)
    }
}

/// Neither of `a` and `b` is listed before the other.
pub open spec fn same_rank(a: Entry, b: Entry, by_time: bool) -> bool {
    a.is_dir == b.is_dir && (by_time ==> time_key(a) == time_key(b)) && a.name@ == b.name@
}

/// The order on positions among `entries`: by `listed_before`, and where
/// two entries rank the same, by position.
pub open spec fn position_leq(entries: Seq<Entry>, by_time: bool) -> spec_fn(usize, usize) -> bool {
    |i: usize, j: usize|
        listed_before(entries[i as int], entries[j as int], by_time) || (same_rank(
            entries[i as int],
            entries[j as int],
            by_time,
        ) && i <= j)
}

proof fn lemma_name_lt_irreflexive(a: Seq<char>)
    ensures
        !name_lt(a, a),
    decreases a.len(),
{
    if a.len() > 0 {
        lemma_name_lt_irreflexive(a.drop_first());
    }
}

proof fn lemma_name_lt_transitive(a: Seq<char>, b: Seq<char>, c: Seq<char>)
    requires
        name_lt(a, b),
        name_lt(b, c),
    ensures
        name_lt(a, c),
    decreases a.len(),
{
    if a.len() > 0 && b.len() > 0 && c.len() > 0 && a[0] == b[0] && b[0] == c[0] {
        lemma_name_lt_transitive(a.drop_first(), b.drop_first(), c.drop_first());
    }
}

proof fn lemma_name_lt_total(a: Seq<char>, b: Seq<char>)
    ensures
        name_lt(a, b) || name_lt(b, a) || a == b,
        !(name_lt(a, b) && name_lt(b, a)),
    decreases a.len(),
{
    if a.len() > 0 && b.len() > 0 {
        if a[0] == b[0] {
            lemma_name_lt_total(a.drop_first(), b.drop_first());
            if a.drop_first() == b.drop_first() {
                assert(a =~= seq![a[0]] + a.drop_first());
                assert(b =~= seq![b[0]] + b.drop_first());
            }
        } else {
            assert((a[0] as int) != (b[0] as int));
        }
    } else if a.len() == 0 && b.len() == 0 {
        assert(a =~= b);
    }
}

/// Siblings are listed in a strict total order: no entry comes before
/// itself, the order is transitive, and of two siblings with different
/// names one comes first. Directories come before everything else.
pub proof fn lemma_listing_order_strict_total(a: Entry, b: Entry, c: Entry, by_time: bool)
    ensures
        !listed_before(a, a, by_time),
        listed_before(a, b, by_time) && listed_before(b, c, by_time) ==> listed_before(
            a,
            c,
            by_time,
        ),
        a.name@ != b.name@ ==> listed_before(a, b, by_time) || listed_before(b, a, by_time),
        !(listed_before(a, b, by_time) && listed_before(b, a, by_time)),
        a.is_dir && !b.is_dir ==> listed_before(a, b, by_time),
{
    lemma_name_lt_irreflexive(a.name@);
    lemma_ranks_compare(a, b, by_time);
    if listed_before(a, b, by_time) && listed_before(b, c, by_time) {
        lemma_listed_before_transitive(a, b, c, by_time);
    }
}

proof fn lemma_ranks_compare(a: Entry, b: Entry, by_time: bool)
    ensures
        listed_before(a, b, by_time) || listed_before(b, a, by_time) || same_rank(a, b, by_time),
        !(listed_before(a, b, by_time) && listed_before(b, a, by_time)),
        same_rank(a, b, by_time) ==> !listed_before(a, b, by_time),
{
    lemma_name_lt_total(a.name@, b.name@);
    lemma_name_lt_irreflexive(a.name@);
}

proof fn lemma_listed_before_transitive(a: Entry, b: Entry, c: Entry, by_time: bool)
    requires
        listed_before(a, b, by_time),
        listed_before(b, c, by_time),
    ensures
        listed_before(a, c, by_time),
{
    if a.is_dir == b.is_dir && b.is_dir == c.is_dir {
        if by_time {
            if time_key(a) == time_key(b) && time_key(b) == time_key(c) {
                lemma_name_lt_transitive(a.name@, b.name@, c.name@);
            }
        } else {
            lemma_name_lt_transitive(a.name@, b.name@, c.name@);
        }
    }
}

proof fn lemma_same_rank_then_before(a: Entry, b: Entry, c: Entry, by_time: bool)
    ensures
        same_rank(a, b, by_time) && listed_before(b, c, by_time) ==> listed_before(a, c, by_time),
        listed_before(a, b, by_time) && same_rank(b, c, by_time) ==> listed_before(a, c, by_time),
{
}

/// `position_leq` is a total order on positions.
pub proof fn lemma_position_leq_total(entries: Seq<Entry>, by_time: bool)
    ensures
        total_ordering(position_leq(entries, by_time)),
{
    let leq = position_leq(entries, by_time);
    assert forall|i: usize| #[trigger] leq(i, i) by {
        lemma_name_lt_irreflexive(entries[i as int].name@);
    }
    assert forall|i: usize, j: usize| #[trigger] leq(i, j) && #[trigger] leq(j, i) implies i == j by {
        lemma_ranks_compare(entries[i as int], entries[j as int], by_time);
        lemma_ranks_compare(entries[j as int], entries[i as int], by_time);
    }
    assert forall|i: usize, j: usize, k: usize| #[trigger] leq(i, j) && #[trigger] leq(j, k) implies leq(i, k) by {
        let (a, b, c) = (entries[i as int], entries[j as int], entries[k as int]);
        lemma_ranks_compare(a, b, by_time);
        lemma_ranks_compare(b, c, by_time);
        lemma_ranks_compare(a, c, by_time);
        lemma_same_rank_then_before(a, b, c, by_time);
        if listed_before(a, b, by_time) && listed_before(b, c, by_time) {
            lemma_listed_before_transitive(a, b, c, by_time);
        }
    }
    assert forall|i: usize, j: usize| #[trigger] leq(i, j) || #[trigger] leq(j, i) by {
        lemma_ranks_compare(entries[i as int], entries[j as int], by_time);
    }
}

/// Whether name `a` comes before name `b`.
pub fn name_less(a: &str, b: &str) -> (r: bool)
    ensures
        r == name_lt(a@, b@),
{
    let la = a.unicode_len();
    let lb = b.unicode_len();
    let mut k: usize = 0;
    proof {
        assert(a@.subrange(0, la as int) =~= a@);
        assert(b@.subrange(0, lb as int) =~= b@);
    }
    while k < la && k < lb
        invariant
            la == a@.len(),
            lb == b@.len(),
            k <= la,
            k <= lb,
            name_lt(a@, b@) == name_lt(a@.subrange(k as int, la as int), b@.subrange(k as int, lb as int)),
        decreases la - k,
    {
        let ca = a.get_char(k);
        let cb = b.get_char(k);
        if ca != cb {
            assert((ca as int) != (cb as int));
            return (ca as u32) < (cb as u32);
        }
        proof {
            assert(a@.subrange(k as int, la as int).drop_first() =~= a@.subrange(k + 1, la as int));
            assert(b@.subrange(k as int, lb as int).drop_first() =~= b@.subrange(k + 1, lb as int));
        }
        k = k + 1;
    }
    k == la && k < lb
}

/// Whether sibling `a` is listed before sibling `b`.
pub fn listed_first(a: &Entry, b: &Entry, by_time: bool) -> (r: bool)
    ensures
        r == listed_before(*a, *b, by_time),
{
    if a.is_dir != b.is_dir {
        return a.is_dir;
    }
    if by_time {
        let ta = match a.modified {
            Some(t) => t,
            None => Timestamp::epoch(),
        };
        let tb = match b.modified {
            Some(t) => t,
            None => Timestamp::epoch(),
        };
        if ta.secs != tb.secs || ta.nanos != tb.nanos {
            return ta.secs < tb.secs || (ta.secs == tb.secs && ta.nanos < tb.nanos);
        }
    }
    name_less(a.name.as_str(), b.name.as_str())
}

/// Sorts `positions` (increasing positions among `entries`) into listing
/// order.
pub fn sort_positions(entries: &Vec<Entry>, positions: &Vec<usize>, by_time: bool) -> (r: Vec<
    usize,
>)
    requires
        forall|k: int| 0 <= k < positions@.len() ==> positions@[k] < entries@.len(),
        forall|k: int, l: int| 0 <= k < l < positions@.len() ==> positions@[k] < positions@[l],
    ensures
        r@.to_multiset() == positions@.to_multiset(),
        sorted_by(r@, position_leq(entries@, by_time)),
        forall|k: int| 0 <= k < r@.len() ==> r@[k] < entries@.len(),
{
    let ghost leq = position_leq(entries@, by_time);
    let mut order: Vec<usize> = Vec::new();
    let mut i: usize = 0;
    assert(order@ =~= positions@.subrange(0, 0));
    while i < positions.len()
        invariant
            i <= positions@.len(),
            forall|k: int| 0 <= k < positions@.len() ==> positions@[k] < entries@.len(),
            forall|k: int, l: int| 0 <= k < l < positions@.len() ==> positions@[k] < positions@[l],
            leq == position_leq(entries@, by_time),
            order@.to_multiset() == positions@.subrange(0, i as int).to_multiset(),
            sorted_by(order@, leq),
            forall|k: int| 0 <= k < order@.len() ==> order@[k] < entries@.len(),
            forall|k: int, l: int|
                0 <= k < order@.len() && i <= l < positions@.len() ==> order@[k] < positions@[l],
        decreases positions@.len() - i,
    {
        let x = positions[i];
        let mut p: usize = 0;
        while p < order.len() && !listed_first(&entries[x], &entries[order[p]], by_time)
            invariant
                p <= order@.len(),
                x < entries@.len(),
                forall|k: int| 0 <= k < order@.len() ==> order@[k] < entries@.len(),
                forall|k: int|
                    0 <= k < p ==> !listed_before(
                        entries@[x as int],
                        #[trigger] entries@[order@[k] as int],
                        by_time,
                    ),
            decreases order@.len() - p,
        {
            p = p + 1;
        }
        let ghost old_order = order@;
        order.insert(p, x);
        proof {
            assert(order@ == old_order.insert(p as int, x));
            to_multiset_insert(old_order, p as int, x);
            assert(positions@.subrange(0, i + 1) =~= positions@.subrange(0, i as int).push(x));
            to_multiset_build(positions@.subrange(0, i as int), x);
            assert forall|k: int, l: int| 0 <= k < l < order@.len() implies #[trigger] leq(
                order@[k],
                order@[l],
            ) by {
                let ex = entries@[x as int];
                if k < p && l == p {
                    let eo = entries@[old_order[k] as int];
                    lemma_ranks_compare(eo, ex, by_time);
                    assert(old_order[k] < x);
                } else if k == p {
                    let eo = entries@[old_order[l - 1] as int];
                    let ep = entries@[old_order[p as int] as int];
                    lemma_ranks_compare(ex, ep, by_time);
                    if l - 1 > p {
                        assert(leq(old_order[p as int], old_order[l - 1]));
                        lemma_same_rank_then_before(ex, ep, eo, by_time);
                        if listed_before(ep, eo, by_time) {
                            lemma_listed_before_transitive(ex, ep, eo, by_time);
                        }
                    }
                } else if l < p {
                    assert(leq(old_order[k], old_order[l]));
                } else {
                    assert(leq(old_order[k - if k > p { 1int } else { 0int }], old_order[l - 1]));
                }
            }
        }
        i = i + 1;
    }
    proof {
        assert(positions@.subrange(0, i as int) =~= positions@);
    }
    order
}

} // verus!
