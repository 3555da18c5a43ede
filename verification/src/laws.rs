//! What holds of every traversal, whatever the tree.
use vstd::prelude::*;
use vstd::multiset::Multiset;
use crate::clean::{held_units, unit_sum, CargoClean};
use crate::entry::{is_hidden_name, is_ignored, texts, Decision, Entry, EntryKind, ScanFlags};
use crate::paths::{excluded_each, lemma_present_keeps, parent_of, present, Exclusion};
use crate::expand::{descends, lemma_selected_paths_push, marks, measures, selected_paths};
use crate::tree::{
    accounts, followed, lemma_sum_tally_concat, lemma_sum_tally_single, lemma_tally_equal,
    lemma_tally_unfold, listing_of, own_yield, sum_tally, tally, tally_below, Node, Tally,
};

verus! {

/// Every directory of the tree below `d`, `d` included, each as often as it
/// occurs.
pub open spec fn all_directories(d: Node) -> Multiset<Entry>
    decreases d, 1nat, 0nat,
{
    Multiset::singleton(d.entry).add(directories_below(d, d.children@.len()))
}

/// Every directory in the trees of the first `n` children of `d`.
pub open spec fn directories_below(d: Node, n: nat) -> Multiset<Entry>
    decreases d, 0nat, n,
{
    if n == 0 || n > d.children@.len() {
        Multiset::empty()
    } else {
        let c = d.children@[n - 1];
        let before = directories_below(d, (n - 1) as nat);
        if c.entry.kind == EntryKind::Directory {
            before.add(all_directories(c))
        } else {
            before
        }
    }
}

/// Exhaustiveness: a traversal that includes hidden entries and excludes
/// nothing expands every directory of the tree, each exactly once.
pub proof fn lemma_every_directory_is_visited_once(
    d: Node,
    flags: ScanFlags,
    ignore: Option<Seq<Seq<char>>>,
)
    requires
        flags.hidden,
        forall|p: Seq<char>| !is_ignored(ignore, p),
    ensures
        tally(d, flags, ignore).visits == all_directories(d),
    decreases d, 1nat, 0nat,
{
    lemma_directories_below(d, d.children@.len(), flags, ignore);
    assert(tally(d, flags, ignore).visits =~= all_directories(d));
}

proof fn lemma_directories_below(d: Node, n: nat, flags: ScanFlags, ignore: Option<Seq<Seq<char>>>)
    requires
        flags.hidden,
        forall|p: Seq<char>| !is_ignored(ignore, p),
    ensures
        tally_below(d, n, flags, ignore).visits == directories_below(d, n),
    decreases d, 0nat, n,
{
    if n == 0 || n > d.children@.len() {
    } else {
        let c = d.children@[n - 1];
        lemma_directories_below(d, (n - 1) as nat, flags, ignore);
        assert(!is_ignored(ignore, c.entry.path@));
        if c.entry.kind == EntryKind::Directory {
            assert(descends(flags, ignore)(c.entry));
            lemma_every_directory_is_visited_once(c, flags, ignore);
        } else {
            assert(!descends(flags, ignore)(c.entry));
        }
        assert(tally_below(d, n, flags, ignore).visits =~= directories_below(d, n));
    }
}

/// No directory is expanded that was not to be followed: apart from the
/// directory at which the traversal starts, every directory that is expanded
/// is a directory outside the exclusions, and, unless hidden entries are
/// included, its name does not begin with a dot.
pub proof fn lemma_visited_were_followed(
    d: Node,
    flags: ScanFlags,
    ignore: Option<Seq<Seq<char>>>,
    e: Entry,
)
    requires
        tally(d, flags, ignore).visits.count(e) > 0,
        e != d.entry,
    ensures
        e.decision(flags, ignore) == Decision::Descend,
        e.kind == EntryKind::Directory,
        !is_ignored(ignore, e.path@),
        flags.hidden || !is_hidden_name(e.name@),
    decreases d, 1nat, 0nat,
{
    lemma_visited_below(d, d.children@.len(), flags, ignore, e);
}

proof fn lemma_visited_below(
    d: Node,
    n: nat,
    flags: ScanFlags,
    ignore: Option<Seq<Seq<char>>>,
    e: Entry,
)
    requires
        tally_below(d, n, flags, ignore).visits.count(e) > 0,
    ensures
        e.decision(flags, ignore) == Decision::Descend,
    decreases d, 0nat, n,
{
    if n == 0 || n > d.children@.len() {
    } else {
        let c = d.children@[n - 1];
        let before = tally_below(d, (n - 1) as nat, flags, ignore);
        if before.visits.count(e) > 0 {
            lemma_visited_below(d, (n - 1) as nat, flags, ignore, e);
        } else {
            assert(descends(flags, ignore)(c.entry));
            assert(tally(c, flags, ignore).visits.count(e) > 0);
            if e != c.entry {
                lemma_visited_were_followed(c, flags, ignore, e);
            }
        }
    }
}

/// Two directories are alike when a traversal cannot tell them apart: they
/// are listed as the same entry and have as many children, and child for
/// child either both are skipped, or both are listed as the same entry, with
/// the same measurement where they are measured, and alike in turn where
/// they are followed. Nothing is asked of a skipped child or of what lies
/// below it.
pub open spec fn alike(a: Node, b: Node, flags: ScanFlags, ignore: Option<Seq<Seq<char>>>) -> bool
    decreases a, 1nat, 0nat,
{
    &&& a.entry == b.entry
    &&& a.children@.len() == b.children@.len()
    &&& alike_below(a, b, a.children@.len(), flags, ignore)
}

/// Whether the first `n` children of `a` and of `b` are alike, one by one.
pub open spec fn alike_below(
    a: Node,
    b: Node,
    n: nat,
    flags: ScanFlags,
    ignore: Option<Seq<Seq<char>>>,
) -> bool
    decreases a, 0nat, n,
{
    if n == 0 || n > a.children@.len() || n > b.children@.len() {
        true
    } else {
        let x = a.children@[n - 1];
        let y = b.children@[n - 1];
        &&& alike_below(a, b, (n - 1) as nat, flags, ignore)
        &&& {
            ||| {
                &&& x.entry.decision(flags, ignore) == Decision::Skip
                &&& y.entry.decision(flags, ignore) == Decision::Skip
            }
            ||| {
                &&& x.entry == y.entry
                &&& measures(flags, ignore)(x.entry) ==> x.size == y.size
                &&& descends(flags, ignore)(x.entry) ==> alike(x, y, flags, ignore)
            }
        }
    }
}

/// What is excluded or hidden does not count: two trees that differ only in
/// skipped entries and in what lies below them yield the same. So nothing
/// below an excluded directory, and with hidden entries left out nothing
/// below an entry whose name begins with a dot, is visited, found or
/// measured.
pub proof fn lemma_skipped_entries_do_not_count(
    a: Node,
    b: Node,
    flags: ScanFlags,
    ignore: Option<Seq<Seq<char>>>,
)
    requires
        alike(a, b, flags, ignore),
    ensures
        tally(a, flags, ignore) == tally(b, flags, ignore),
    decreases a, 1nat, 0nat,
{
    let n = a.children@.len();
    lemma_alike_below(a, b, n, flags, ignore);
    lemma_alike_own(a, b, n, flags, ignore);
    assert(listing_of(a).take(n as int) =~= listing_of(a));
    assert(listing_of(b).take(n as int) =~= listing_of(b));
    assert(a.children@.take(n as int) =~= a.children@);
    assert(b.children@.take(n as int) =~= b.children@);
}

proof fn lemma_alike_below(
    a: Node,
    b: Node,
    n: nat,
    flags: ScanFlags,
    ignore: Option<Seq<Seq<char>>>,
)
    requires
        n <= a.children@.len(),
        a.children@.len() == b.children@.len(),
        alike_below(a, b, n, flags, ignore),
    ensures
        tally_below(a, n, flags, ignore) == tally_below(b, n, flags, ignore),
    decreases a, 0nat, n,
{
    if n > 0 {
        let x = a.children@[n - 1];
        let y = b.children@[n - 1];
        lemma_alike_below(a, b, (n - 1) as nat, flags, ignore);
        if descends(flags, ignore)(x.entry) {
            lemma_skipped_entries_do_not_count(x, y, flags, ignore);
        }
    }
}

proof fn lemma_alike_own(a: Node, b: Node, n: nat, flags: ScanFlags, ignore: Option<Seq<Seq<char>>>)
    requires
        n <= a.children@.len(),
        a.children@.len() == b.children@.len(),
        alike_below(a, b, n, flags, ignore),
    ensures
        selected_paths(listing_of(a).take(n as int), marks(flags, ignore)) == selected_paths(
            listing_of(b).take(n as int),
            marks(flags, ignore),
        ),
        a.children@.take(n as int).filter(|c: Node| measures(flags, ignore)(c.entry)).map_values(
            |c: Node| c.size,
        ) == b.children@.take(n as int).filter(
            |c: Node| measures(flags, ignore)(c.entry),
        ).map_values(|c: Node| c.size),
    decreases n,
{
    let measured = |c: Node| measures(flags, ignore)(c.entry);
    let size_of = |c: Node| c.size;
    if n == 0 {
        reveal(Seq::filter);
        assert(listing_of(a).take(0) =~= listing_of(b).take(0));
        assert(a.children@.take(0) =~= b.children@.take(0));
    } else {
        let x = a.children@[n - 1];
        let y = b.children@[n - 1];
        lemma_alike_own(a, b, (n - 1) as nat, flags, ignore);
        assert(listing_of(a).take(n as int) =~= listing_of(a).take(n - 1).push(x.entry));
        assert(listing_of(b).take(n as int) =~= listing_of(b).take(n - 1).push(y.entry));
        lemma_selected_paths_push(listing_of(a).take(n - 1), x.entry, marks(flags, ignore));
        lemma_selected_paths_push(listing_of(b).take(n - 1), y.entry, marks(flags, ignore));
        let before_a = a.children@.take(n - 1);
        let before_b = b.children@.take(n - 1);
        assert(a.children@.take(n as int) =~= before_a.push(x));
        assert(b.children@.take(n as int) =~= before_b.push(y));
        before_a.lemma_filter_push(x, measured);
        before_b.lemma_filter_push(y, measured);
        if measured(x) {
            assert(before_a.filter(measured).push(x).map_values(size_of) =~= before_a.filter(
                measured,
            ).map_values(size_of).push(x.size));
        }
        if measured(y) {
            assert(before_b.filter(measured).push(y).map_values(size_of) =~= before_b.filter(
                measured,
            ).map_values(size_of).push(y.size));
        }
    }
}

/// The order of expansion does not matter: whichever of the waiting
/// directories is expanded next, what it yields by itself and what the
/// directories that wait afterwards will yield is what the waiting
/// directories would have yielded before.
pub proof fn lemma_any_order_balances(
    waiting: Seq<Node>,
    i: int,
    flags: ScanFlags,
    ignore: Option<Seq<Seq<char>>>,
)
    requires
        0 <= i < waiting.len(),
    ensures
        sum_tally(waiting, flags, ignore) == own_yield(waiting[i], flags, ignore).plus(
            sum_tally(waiting.remove(i) + followed(waiting[i], flags, ignore), flags, ignore),
        ),
{
    let d = waiting[i];
    let front = waiting.take(i);
    let back = waiting.skip(i + 1);
    let below = followed(d, flags, ignore);
    assert(waiting =~= front + (seq![d] + back));
    assert(waiting.remove(i) =~= front + back);
    lemma_sum_tally_concat(front, seq![d] + back, flags, ignore);
    lemma_sum_tally_concat(seq![d], back, flags, ignore);
    lemma_sum_tally_single(d, flags, ignore);
    lemma_tally_unfold(d, flags, ignore);
    lemma_sum_tally_concat(front, back, flags, ignore);
    lemma_sum_tally_concat(front + back, below, flags, ignore);
    lemma_tally_equal(
        sum_tally(waiting, flags, ignore),
        own_yield(d, flags, ignore).plus(
            sum_tally(waiting.remove(i) + below, flags, ignore),
        ),
    );
}

/// An excluded directory is skipped, and so is, with hidden entries left out,
/// every entry whose name begins with a dot.
pub proof fn lemma_excluded_and_hidden_are_skipped(
    e: Entry,
    flags: ScanFlags,
    ignore: Option<Seq<Seq<char>>>,
)
    ensures
        e.kind == EntryKind::Directory && is_ignored(ignore, e.path@) ==> e.decision(flags, ignore)
            == Decision::Skip,
        !flags.hidden && is_hidden_name(e.name@) ==> e.decision(flags, ignore) == Decision::Skip,
{
}

/// An exclusion that names a regular file excludes the directory that holds
/// the file: that directory is skipped wherever a traversal meets it.
pub proof fn lemma_file_exclusion_covers_directory(
    list: Seq<Exclusion>,
    i: int,
    e: Entry,
    flags: ScanFlags,
)
    requires
        0 <= i < list.len(),
        list[i].is_file,
        e.kind == EntryKind::Directory,
        parent_of(list[i].path@) == Some(e.path@),
    ensures
        e.decision(flags, Some(present(excluded_each(list)))) == Decision::Skip,
{
    lemma_present_keeps(excluded_each(list), i);
}

/// Traversing again finds the same: two traversals that start from the same
/// state and yield the same expand the same directories, hold the same
/// projects and measure the same number of bytes, in whatever order each of
/// them went.
pub proof fn lemma_rescan_agrees(
    found: Tally,
    start: CargoClean,
    first: CargoClean,
    seen: Seq<Entry>,
    second: CargoClean,
    then: Seq<Entry>,
)
    requires
        accounts(found, start, first, seen),
        accounts(found, start, second, then),
    ensures
        seen.to_multiset() == then.to_multiset(),
        texts(first.workspaces@).to_multiset() == texts(second.workspaces@).to_multiset(),
        unit_sum(held_units(first.size_units)) == unit_sum(held_units(second.size_units)),
{
}

} // verus!
