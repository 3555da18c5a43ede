//! A directory tree held in memory, what a traversal of it must find, and a
//! traversal that is proved to find exactly that.
use vstd::prelude::*;
use vstd::multiset::Multiset;
use vstd::seq_lib::{lemma_multiset_commutative, to_multiset_build};
use crate::clean::{held_units, lemma_unit_sum_concat, unit_sum, CargoClean, Frontier};
use crate::entry::{classify, ignore_view, texts, Decision, Entry, ScanFlags};
use crate::expand::{descends, handle_task, marks, measures, selected_paths};

verus! {

/// A file system object together with everything below it.
#[derive(Debug)]
pub struct Node {
    /// The object as its parent directory lists it.
    pub entry: Entry,
    /// For a regular file, its length in bytes; `None` where it cannot be
    /// measured.
    pub size: Option<u64>,
    /// For a directory, its direct children.
    pub children: Vec<Node>,
}

/// What a traversal yields: the directories it expanded, the markers it
/// found, and the bytes it measured.
pub struct Tally {
    pub visits: Multiset<Entry>,
    pub markers: Multiset<Seq<char>>,
    pub bytes: nat,
}

impl Tally {
    /// Nothing visited, nothing found, nothing measured.
    pub open spec fn zero() -> Tally {
        Tally { visits: Multiset::empty(), markers: Multiset::empty(), bytes: 0 }
    }

    /// Two yields taken together.
    pub open spec fn plus(self, other: Tally) -> Tally {
        Tally {
            visits: self.visits.add(other.visits),
            markers: self.markers.add(other.markers),
            bytes: self.bytes + other.bytes,
        }
    }
}

/// The listing of directory `d`: its direct children as entries.
pub open spec fn listing_of(d: Node) -> Seq<Entry> {
    d.children@.map_values(|c: Node| c.entry)
}

/// The children of `d` that a traversal follows, in listing order.
pub open spec fn followed(d: Node, flags: ScanFlags, ignore: Option<Seq<Seq<char>>>) -> Seq<Node> {
    d.children@.filter(|c: Node| descends(flags, ignore)(c.entry))
}

/// The measurements of the children of `d` that a traversal measures, in
/// listing order.
pub open spec fn measured_sizes(d: Node, flags: ScanFlags, ignore: Option<Seq<Seq<char>>>) -> Seq<
    Option<u64>,
> {
    d.children@.filter(|c: Node| measures(flags, ignore)(c.entry)).map_values(|c: Node| c.size)
}

/// What the expansion of directory `d` yields by itself: `d` is visited, the
/// markers among its children are found, the files among them are measured.
pub open spec fn own_yield(d: Node, flags: ScanFlags, ignore: Option<Seq<Seq<char>>>) -> Tally {
    Tally {
        visits: Multiset::singleton(d.entry),
        markers: selected_paths(listing_of(d), marks(flags, ignore)).to_multiset(),
        bytes: unit_sum(measured_sizes(d, flags, ignore)),
    }
}

/// What the traversal that starts by expanding directory `d` yields: the
/// yield of `d` itself and that of the traversal of every child that is
/// followed.
pub open spec fn tally(d: Node, flags: ScanFlags, ignore: Option<Seq<Seq<char>>>) -> Tally
    decreases d, 1nat, 0nat,
{
    own_yield(d, flags, ignore).plus(tally_below(d, d.children@.len(), flags, ignore))
}

/// What the traversals of those among the first `n` children of `d` that are
/// followed yield together.
pub open spec fn tally_below(d: Node, n: nat, flags: ScanFlags, ignore: Option<Seq<Seq<char>>>) -> Tally
    decreases d, 0nat, n,
{
    if n == 0 || n > d.children@.len() {
        Tally::zero()
    } else {
        let c = d.children@[n - 1];
        let before = tally_below(d, (n - 1) as nat, flags, ignore);
        if descends(flags, ignore)(c.entry) {
            before.plus(tally(c, flags, ignore))
        } else {
            before
        }
    }
}

/// What the traversals of the directories in `nodes` yield together.
pub open spec fn sum_tally(nodes: Seq<Node>, flags: ScanFlags, ignore: Option<Seq<Seq<char>>>) -> Tally
    decreases nodes.len(),
{
    if nodes.len() == 0 {
        Tally::zero()
    } else {
        sum_tally(nodes.drop_last(), flags, ignore).plus(tally(nodes.last(), flags, ignore))
    }
}

/// Two yields are the same when they agree in every part.
pub proof fn lemma_tally_equal(a: Tally, b: Tally)
    requires
        a.visits =~= b.visits,
        a.markers =~= b.markers,
        a.bytes == b.bytes,
    ensures
        a == b,
{
}

/// Taking yields together does not depend on grouping or order.
pub proof fn lemma_plus_laws(a: Tally, b: Tally, c: Tally)
    ensures
        a.plus(b) == b.plus(a),
        a.plus(b).plus(c) == a.plus(b.plus(c)),
        a.plus(Tally::zero()) == a,
        Tally::zero().plus(a) == a,
{
    lemma_tally_equal(a.plus(b), b.plus(a));
    lemma_tally_equal(a.plus(b).plus(c), a.plus(b.plus(c)));
    lemma_tally_equal(a.plus(Tally::zero()), a);
    lemma_tally_equal(Tally::zero().plus(a), a);
}

/// The yield of two groups of directories is the yield of one and of the
/// other.
pub proof fn lemma_sum_tally_concat(
    a: Seq<Node>,
    b: Seq<Node>,
    flags: ScanFlags,
    ignore: Option<Seq<Seq<char>>>,
)
    ensures
        sum_tally(a + b, flags, ignore) == sum_tally(a, flags, ignore).plus(
            sum_tally(b, flags, ignore),
        ),
    decreases b.len(),
{
    if b.len() == 0 {
        assert(a + b =~= a);
        lemma_plus_laws(sum_tally(a, flags, ignore), Tally::zero(), Tally::zero());
    } else {
        assert((a + b).drop_last() =~= a + b.drop_last());
        assert((a + b).last() == b.last());
        lemma_sum_tally_concat(a, b.drop_last(), flags, ignore);
        lemma_plus_laws(
            sum_tally(a, flags, ignore),
            sum_tally(b.drop_last(), flags, ignore),
            tally(b.last(), flags, ignore),
        );
    }
}

/// The traversal of a directory yields what the directory yields by itself
/// and what the traversals of its followed children yield.
pub proof fn lemma_tally_unfold(d: Node, flags: ScanFlags, ignore: Option<Seq<Seq<char>>>)
    ensures
        tally(d, flags, ignore) == own_yield(d, flags, ignore).plus(
            sum_tally(followed(d, flags, ignore), flags, ignore),
        ),
{
    lemma_tally_below(d, d.children@.len(), flags, ignore);
    assert(d.children@.take(d.children@.len() as int) =~= d.children@);
}

proof fn lemma_tally_below(d: Node, n: nat, flags: ScanFlags, ignore: Option<Seq<Seq<char>>>)
    requires
        n <= d.children@.len(),
    ensures
        tally_below(d, n, flags, ignore) == sum_tally(
            d.children@.take(n as int).filter(|c: Node| descends(flags, ignore)(c.entry)),
            flags,
            ignore,
        ),
    decreases n,
{
    let want = |c: Node| descends(flags, ignore)(c.entry);
    if n == 0 {
        assert(d.children@.take(0) =~= Seq::<Node>::empty());
        assert(Seq::<Node>::empty().filter(want) =~= Seq::<Node>::empty()) by {
            reveal(Seq::filter);
        }
    } else {
        let c = d.children@[n - 1];
        let before = d.children@.take(n - 1);
        lemma_tally_below(d, (n - 1) as nat, flags, ignore);
        assert(d.children@.take(n as int) =~= before.push(c));
        before.lemma_filter_push(c, want);
        if want(c) {
            assert(before.filter(want).push(c).drop_last() =~= before.filter(want));
        }
    }
}

/// A group of one directory yields what the traversal of that directory
/// yields.
pub proof fn lemma_sum_tally_single(d: Node, flags: ScanFlags, ignore: Option<Seq<Seq<char>>>)
    ensures
        sum_tally(seq![d], flags, ignore) == tally(d, flags, ignore),
{
    let one = seq![d];
    assert(one.drop_last() =~= Seq::<Node>::empty());
    assert(sum_tally(one.drop_last(), flags, ignore) == Tally::zero());
    assert(one.last() == d);
    lemma_plus_laws(tally(d, flags, ignore), Tally::zero(), Tally::zero());
}

/// Taking the first of a group of directories out, the last one moving into
/// its place, leaves a group that with the one taken out yields what the
/// whole group did.
pub proof fn lemma_sum_tally_swap_remove(
    nodes: Seq<Node>,
    flags: ScanFlags,
    ignore: Option<Seq<Seq<char>>>,
)
    requires
        nodes.len() > 0,
    ensures
        sum_tally(nodes, flags, ignore) == tally(nodes[0], flags, ignore).plus(
            sum_tally(nodes.update(0, nodes.last()).drop_last(), flags, ignore),
        ),
{
    let rest = nodes.update(0, nodes.last()).drop_last();
    let first = seq![nodes[0]];
    lemma_sum_tally_single(nodes[0], flags, ignore);
    if nodes.len() == 1 {
        assert(rest =~= Seq::<Node>::empty());
        assert(nodes =~= first);
        lemma_plus_laws(tally(nodes[0], flags, ignore), Tally::zero(), Tally::zero());
    } else {
        let middle = nodes.subrange(1, nodes.len() - 1);
        let last = seq![nodes.last()];
        lemma_sum_tally_single(nodes.last(), flags, ignore);
        assert(nodes =~= first + (middle + last));
        assert(rest =~= last + middle);
        lemma_sum_tally_concat(first, middle + last, flags, ignore);
        lemma_sum_tally_concat(middle, last, flags, ignore);
        lemma_sum_tally_concat(last, middle, flags, ignore);
        lemma_plus_laws(
            sum_tally(middle, flags, ignore),
            sum_tally(last, flags, ignore),
            Tally::zero(),
        );
    }
}

/// The paths of a group of nodes, in order.
pub open spec fn paths_of(nodes: Seq<Node>) -> Seq<Seq<char>> {
    nodes.map_values(|c: Node| c.entry.path@)
}

/// Selecting entries from a listing and taking their paths is selecting the
/// nodes that they stand for and taking their paths.
pub proof fn lemma_selected_nodes(nodes: Seq<Node>, want: spec_fn(Entry) -> bool)
    ensures
        selected_paths(nodes.map_values(|c: Node| c.entry), want) == paths_of(
            nodes.filter(|c: Node| want(c.entry)),
        ),
    decreases nodes.len(),
{
    let entry_of = |c: Node| c.entry;
    let node_wanted = |c: Node| want(c.entry);
    if nodes.len() == 0 {
        reveal(Seq::filter);
        assert(nodes.map_values(entry_of).filter(want) =~= Seq::<Entry>::empty());
        assert(nodes.filter(node_wanted) =~= Seq::<Node>::empty());
        assert(selected_paths(nodes.map_values(entry_of), want) =~= paths_of(
            nodes.filter(node_wanted),
        ));
    } else {
        let before = nodes.drop_last();
        let c = nodes.last();
        lemma_selected_nodes(before, want);
        assert(nodes =~= before.push(c));
        assert(nodes.map_values(entry_of) =~= before.map_values(entry_of).push(c.entry));
        before.map_values(entry_of).lemma_filter_push(c.entry, want);
        before.lemma_filter_push(c, node_wanted);
        if want(c.entry) {
            assert(selected_paths(nodes.map_values(entry_of), want) =~= selected_paths(
                before.map_values(entry_of),
                want,
            ).push(c.entry.path@));
            assert(paths_of(nodes.filter(node_wanted)) =~= paths_of(
                before.filter(node_wanted),
            ).push(c.entry.path@));
        }
    }
}

impl Node {
    /// The listing of this directory: its direct children as entries.
    pub fn listing(&self) -> (entries: Vec<Entry>)
        ensures
            entries@ == listing_of(*self),
    {
        let mut entries: Vec<Entry> = Vec::new();
        let mut i: usize = 0;
        while i < self.children.len()
            invariant
                i <= self.children.len(),
                entries@ == self.children@.take(i as int).map_values(|c: Node| c.entry),
            decreases self.children.len() - i,
        {
            entries.push(self.children[i].entry.duplicate());
            assert(self.children@.take(i + 1).map_values(|c: Node| c.entry) =~= self.children@.take(
                i as int,
            ).map_values(|c: Node| c.entry).push(self.children@[i as int].entry));
            i += 1;
        }
        assert(self.children@.take(self.children@.len() as int) =~= self.children@);
        entries
    }

    /// The children of this directory that a traversal follows, and the
    /// measurements of those that it measures, both in listing order.
    pub fn answer(&self, flags: ScanFlags, ignore: &Option<Vec<String>>) -> (found: (
        Vec<&Node>,
        Vec<Option<u64>>,
    ))
        ensures
            found.0@.map_values(|c: &Node| *c) == followed(*self, flags, ignore_view(*ignore)),
            found.1@ == measured_sizes(*self, flags, ignore_view(*ignore)),
    {
        let mut kids: Vec<&Node> = Vec::new();
        let mut sizes: Vec<Option<u64>> = Vec::new();
        let ghost ig = ignore_view(*ignore);
        let ghost follow = |c: Node| descends(flags, ig)(c.entry);
        let ghost measure = |c: Node| measures(flags, ig)(c.entry);
        let mut i: usize = 0;
        proof {
            reveal(Seq::filter);
            assert(self.children@.take(0) =~= Seq::<Node>::empty());
            assert(kids@.map_values(|c: &Node| *c) =~= self.children@.take(0).filter(follow));
            assert(sizes@ =~= self.children@.take(0).filter(measure).map_values(|c: Node| c.size));
        }
        while i < self.children.len()
            invariant
                i <= self.children.len(),
                ig == ignore_view(*ignore),
                follow == (|c: Node| descends(flags, ig)(c.entry)),
                measure == (|c: Node| measures(flags, ig)(c.entry)),
                kids@.map_values(|c: &Node| *c) == self.children@.take(i as int).filter(follow),
                sizes@ == self.children@.take(i as int).filter(measure).map_values(
                    |c: Node| c.size,
                ),
            decreases self.children.len() - i,
        {
            let child = &self.children[i];
            let ghost before = self.children@.take(i as int);
            let ghost old_kids = kids@;
            let ghost old_sizes = sizes@;
            proof {
                assert(self.children@.take(i + 1) =~= before.push(*child));
                before.lemma_filter_push(*child, follow);
                before.lemma_filter_push(*child, measure);
            }
            match classify(&child.entry, flags, ignore) {
                Decision::Skip => {},
                Decision::Descend => {
                    kids.push(child);
                    assert(kids@.map_values(|c: &Node| *c) =~= old_kids.map_values(|c: &Node| *c).push(
                        *child,
                    ));
                },
                Decision::Record { marker, measure: wanted } => {
                    if wanted {
                        sizes.push(child.size);
                        assert(before.filter(measure).push(*child).map_values(|c: Node| c.size)
                            =~= old_sizes.push(child.size));
                    }
                },
            }
            i += 1;
        }
        assert(self.children@.take(self.children@.len() as int) =~= self.children@);
        (kids, sizes)
    }
}

/// What a cleaner has found beyond what it held at `start`, given the
/// directories that the traversal expanded: `done` accounts for exactly that.
pub open spec fn accounts(
    done: Tally,
    start: CargoClean,
    now: CargoClean,
    visited: Seq<Entry>,
) -> bool {
    &&& visited.to_multiset() == done.visits
    &&& texts(now.workspaces@).to_multiset() == texts(start.workspaces@).to_multiset().add(
        done.markers,
    )
    &&& now.size_units is Some ==> unit_sum(held_units(now.size_units)) == unit_sum(
        held_units(start.size_units),
    ) + done.bytes
    &&& now.size_units is Some == start.size_units is Some
    &&& now.hidden == start.hidden
    &&& now.roots == start.roots
    &&& now.ignore == start.ignore
}

/// The strings of two lists put together.
proof fn lemma_texts_concat(a: Seq<String>, b: Seq<String>)
    ensures
        texts(a + b) == texts(a) + texts(b),
{
    assert(texts(a + b) =~= texts(a) + texts(b));
}

/// Traverses the tree below `root` with the cleaner's flags and exclusions,
/// one directory at a time from a frontier that starts with `root` alone.
/// Returns the directories that were expanded. The cleaner gains the markers
/// and the measurements that the traversal of the tree yields, no more and no
/// less, and every directory that the traversal reaches is expanded once.
pub fn scan_tree(cleaner: &mut CargoClean, root: &Node, size_only: bool) -> (visited: Vec<Entry>)
    ensures
        accounts(
            tally(*root, old(cleaner).flags(size_only), ignore_view(old(cleaner).ignore)),
            *old(cleaner),
            *final(cleaner),
            visited@,
        ),
{
    let flags = cleaner.scan_flags(size_only);
    let ghost ig = ignore_view(cleaner.ignore);
    let ghost start = *cleaner;
    let mut frontier = Frontier::new(root.entry.path.clone(), 1);
    let mut nodes: Vec<&Node> = Vec::new();
    nodes.push(root);
    let mut visited: Vec<Entry> = Vec::new();
    let ghost mut done = Tally::zero();
    proof {
        assert(nodes@.map_values(|c: &Node| *c) =~= seq![*root]);
        assert(texts(frontier.pending@) =~= paths_of(nodes@.map_values(|c: &Node| *c)));
        lemma_sum_tally_single(*root, flags, ig);
        lemma_plus_laws(tally(*root, flags, ig), Tally::zero(), Tally::zero());
        visited@.to_multiset_ensures();
        assert(visited@.to_multiset().len() == 0);
        assert(visited@.to_multiset() =~= done.visits);
        assert(texts(cleaner.workspaces@).to_multiset() =~= texts(
            start.workspaces@,
        ).to_multiset().add(done.markers));
    }
    loop
        invariant
            frontier.wf(),
            frontier.active == 0,
            frontier.limit == 1,
            flags == start.flags(size_only),
            ig == ignore_view(start.ignore),
            texts(frontier.pending@) == paths_of(nodes@.map_values(|c: &Node| *c)),
            accounts(done, start, *cleaner, visited@),
            done.plus(sum_tally(nodes@.map_values(|c: &Node| *c), flags, ig)) == tally(
                *root,
                flags,
                ig,
            ),
        ensures
            accounts(tally(*root, flags, ig), start, *cleaner, visited@),
        decreases sum_tally(nodes@.map_values(|c: &Node| *c), flags, ig).visits.len(),
    {
        let ghost waiting = nodes@.map_values(|c: &Node| *c);
        let ghost pending = frontier.pending@;
        let ghost before = *cleaner;
        let ghost seen = visited@;
        match frontier.next_task() {
            None => {
                proof {
                    assert(pending.len() == 0);
                    assert(waiting.len() == texts(pending).len());
                    lemma_plus_laws(done, Tally::zero(), Tally::zero());
                }
                break ;
            },
            Some(_) => {
                assert(waiting.len() == texts(pending).len());
                let node = nodes.swap_remove(0);
                let ghost rest = nodes@.map_values(|c: &Node| *c);
                let entries = node.listing();
                let out = handle_task(&entries, flags, &cleaner.ignore);
                let (mut kids, sizes) = node.answer(flags, &cleaner.ignore);
                let ghost below = kids@.map_values(|c: &Node| *c);
                let ghost found = out.paths@;
                let ghost tasks = out.tasks@;
                let ghost own = own_yield(*node, flags, ig);
                cleaner.merge(&mut frontier, out);
                cleaner.record_sizes(sizes);
                nodes.append(&mut kids);
                visited.push(node.entry.duplicate());
                proof {
                    assert(*node == waiting[0]);
                    assert(rest =~= waiting.update(0, waiting.last()).drop_last());
                    lemma_selected_nodes(node.children@, descends(flags, ig));
                    assert(texts(tasks) == paths_of(below));
                    assert(nodes@.map_values(|c: &Node| *c) =~= rest + below);
                    lemma_texts_concat(pending.update(0, pending.last()).drop_last(), tasks);
                    assert(texts(pending.update(0, pending.last()).drop_last()) =~= paths_of(rest)) by {
                        assert forall|i: int| 0 <= i < rest.len() implies texts(
                            pending.update(0, pending.last()).drop_last(),
                        )[i] == paths_of(rest)[i] by {
                            let k = if i == 0 {
                                waiting.len() - 1
                            } else {
                                i
                            };
                            assert(texts(pending)[k] == paths_of(waiting)[k]);
                        }
                    }
                    assert(paths_of(rest + below) =~= paths_of(rest) + paths_of(below));
                    // the yield
                    lemma_sum_tally_swap_remove(waiting, flags, ig);
                    lemma_tally_unfold(*node, flags, ig);
                    lemma_sum_tally_concat(rest, below, flags, ig);
                    let s_rest = sum_tally(rest, flags, ig);
                    let s_below = sum_tally(below, flags, ig);
                    lemma_tally_equal(
                        done.plus(own).plus(s_rest.plus(s_below)),
                        done.plus(own.plus(s_below).plus(s_rest)),
                    );
                    done = done.plus(own);
                    // what the cleaner holds
                    to_multiset_build(seen, node.entry);
                    assert(visited@.to_multiset() =~= done.visits);
                    lemma_texts_concat(before.workspaces@, found);
                    lemma_multiset_commutative(texts(before.workspaces@), texts(found));
                    assert(texts(cleaner.workspaces@).to_multiset() =~= texts(
                        start.workspaces@,
                    ).to_multiset().add(done.markers));
                    if cleaner.size_units is Some {
                        lemma_unit_sum_concat(
                            held_units(before.size_units),
                            measured_sizes(*node, flags, ig),
                        );
                    }
                }
            },
        }
    }
    visited
}

/// The first of `trees` that stands at the path `root`, if there is one.
pub open spec fn tree_at(trees: Seq<Node>, root: Seq<char>) -> Option<Node>
    decreases trees.len(),
{
    if trees.len() == 0 {
        None
    } else if trees[0].entry.path@ == root {
        Some(trees[0])
    } else {
        tree_at(trees.drop_first(), root)
    }
}

/// What the traversal from one root yields: that of the tree that stands
/// there; nothing where no tree does.
pub open spec fn root_tally(
    root: Seq<char>,
    trees: Seq<Node>,
    flags: ScanFlags,
    ignore: Option<Seq<Seq<char>>>,
) -> Tally {
    match tree_at(trees, root) {
        Some(tree) => tally(tree, flags, ignore),
        None => Tally::zero(),
    }
}

/// What the traversals from all of `roots` yield together.
pub open spec fn roots_tally(
    roots: Seq<Seq<char>>,
    trees: Seq<Node>,
    flags: ScanFlags,
    ignore: Option<Seq<Seq<char>>>,
) -> Tally
    decreases roots.len(),
{
    if roots.len() == 0 {
        Tally::zero()
    } else {
        roots_tally(roots.drop_last(), trees, flags, ignore).plus(
            root_tally(roots.last(), trees, flags, ignore),
        )
    }
}

/// Finds the first of `trees` that stands at the path `root`.
pub fn find_tree<'a>(trees: &'a Vec<Node>, root: &String) -> (found: Option<&'a Node>)
    ensures
        match found {
            Some(tree) => tree_at(trees@, root@) == Some(*tree),
            None => tree_at(trees@, root@) is None,
        },
{
    let mut i: usize = 0;
    assert(trees@.skip(0) =~= trees@);
    while i < trees.len()
        invariant
            i <= trees.len(),
            tree_at(trees@, root@) == tree_at(trees@.skip(i as int), root@),
        decreases trees.len() - i,
    {
        assert(trees@.skip(i as int)[0] == trees@[i as int]);
        assert(trees@.skip(i as int).drop_first() =~= trees@.skip(i + 1));
        if trees[i].entry.path == *root {
            return Some(&trees[i]);
        }
        i += 1;
    }
    None
}

/// What two traversals in a row account for is what both yield together.
pub proof fn lemma_accounts_chain(
    first: Tally,
    second: Tally,
    start: CargoClean,
    between: CargoClean,
    now: CargoClean,
    seen: Seq<Entry>,
    then: Seq<Entry>,
)
    requires
        accounts(first, start, between, seen),
        accounts(second, between, now, then),
    ensures
        accounts(first.plus(second), start, now, seen + then),
{
    lemma_multiset_commutative(seen, then);
    assert(texts(now.workspaces@).to_multiset() =~= texts(start.workspaces@).to_multiset().add(
        first.plus(second).markers,
    ));
}

/// A cleaner that did nothing accounts for nothing.
pub proof fn lemma_accounts_nothing(start: CargoClean)
    ensures
        accounts(Tally::zero(), start, start, Seq::<Entry>::empty()),
{
    let none = Seq::<Entry>::empty();
    none.to_multiset_ensures();
    assert(none.to_multiset().len() == 0);
    assert(none.to_multiset() =~= Multiset::<Entry>::empty());
    assert(texts(start.workspaces@).to_multiset() =~= texts(start.workspaces@).to_multiset().add(
        Tally::zero().markers,
    ));
}

impl CargoClean {
    /// Traverses, for each root in turn, the tree in `trees` that stands at
    /// that root; a root at which no tree stands yields nothing. With
    /// `size_only` no project is registered. Returns the directories that
    /// were expanded. The cleaner gains what the traversals from its roots
    /// yield together.
    pub fn get_paths(&mut self, trees: &Vec<Node>, size_only: bool) -> (visited: Vec<Entry>)
        ensures
            accounts(
                roots_tally(
                    texts(old(self).roots@),
                    trees@,
                    old(self).flags(size_only),
                    ignore_view(old(self).ignore),
                ),
                *old(self),
                *final(self),
                visited@,
            ),
    {
        let ghost start = *self;
        let ghost flags = self.flags(size_only);
        let ghost ig = ignore_view(self.ignore);
        let ghost roots = texts(self.roots@);
        let mut visited: Vec<Entry> = Vec::new();
        let mut i: usize = 0;
        proof {
            lemma_accounts_nothing(start);
            assert(roots.take(0) =~= Seq::<Seq<char>>::empty());
            assert(visited@ =~= Seq::<Entry>::empty());
        }
        while i < self.roots.len()
            invariant
                i <= self.roots.len(),
                flags == start.flags(size_only),
                ig == ignore_view(start.ignore),
                roots == texts(start.roots@),
                accounts(roots_tally(roots.take(i as int), trees@, flags, ig), start, *self, visited@),
            decreases self.roots.len() - i,
        {
            let ghost between = *self;
            let ghost seen = visited@;
            let ghost so_far = roots_tally(roots.take(i as int), trees@, flags, ig);
            let root = self.roots[i].clone();
            proof {
                assert(roots.take(i + 1).drop_last() =~= roots.take(i as int));
                assert(roots.take(i + 1).last() == root@);
            }
            match find_tree(trees, &root) {
                Some(tree) => {
                    let mut then = scan_tree(self, tree, size_only);
                    proof {
                        lemma_accounts_chain(
                            so_far,
                            tally(*tree, flags, ig),
                            start,
                            between,
                            *self,
                            seen,
                            then@,
                        );
                    }
                    visited.append(&mut then);
                },
                None => {
                    proof {
                        lemma_plus_laws(so_far, Tally::zero(), Tally::zero());
                    }
                },
            }
            i += 1;
        }
        assert(roots.take(self.roots@.len() as int) =~= roots);
        visited
    }
}

} // verus!
