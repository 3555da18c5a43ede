//! The cleaner's state: roots, exclusions, discovered projects and size
//! measurements; and the frontier of a traversal.
use vstd::prelude::*;
use crate::entry::{texts, ScanFlags};
use crate::expand::HandleTaskOut;

verus! {

/// The state of one cleaning run.
#[derive(Debug)]
pub struct CargoClean {
    /// Include entries whose name begins with a dot.
    pub hidden: bool,
    /// Marker files of the projects discovered and not yet cleaned.
    pub workspaces: Vec<String>,
    /// The directories from which traversals start.
    pub roots: Vec<String>,
    /// Finished size measurements that were not summed yet; a failed
    /// measurement is `None`. The whole field is `None` when sizes are not
    /// tracked.
    pub size_units: Option<Vec<Option<u64>>>,
    /// Directories that are never expanded.
    pub ignore: Option<Vec<String>>,
}

/// The directories of one traversal that await expansion, and how many
/// expansions are under way.
#[derive(Debug)]
pub struct Frontier {
    /// Directories discovered and not yet handed out.
    pub pending: Vec<String>,
    /// Expansions handed out and not yet merged.
    pub active: usize,
    /// The most expansions that may be under way at once.
    pub limit: usize,
}

/// The sum of the measurements in `units`; a failed one counts as zero.
pub open spec fn unit_sum(units: Seq<Option<u64>>) -> nat
    decreases units.len(),
{
    if units.len() == 0 {
        0
    } else {
        unit_sum(units.drop_last()) + match units.last() {
            Some(n) => n as nat,
            None => 0,
        }
    }
}

/// The sum over two runs of measurements is the sum of their sums.
pub proof fn lemma_unit_sum_concat(a: Seq<Option<u64>>, b: Seq<Option<u64>>)
    ensures
        unit_sum(a + b) == unit_sum(a) + unit_sum(b),
    decreases b.len(),
{
    if b.len() == 0 {
        assert(a + b =~= a);
    } else {
        assert((a + b).drop_last() =~= a + b.drop_last());
        assert((a + b).last() == b.last());
        lemma_unit_sum_concat(a, b.drop_last());
    }
}

/// The measurements that a cleaner holds; none when sizes are not tracked.
pub open spec fn held_units(units: Option<Vec<Option<u64>>>) -> Seq<Option<u64>> {
    match units {
        Some(list) => list@,
        None => Seq::empty(),
    }
}

impl Frontier {
    /// Whether the number of running expansions respects the limit.
    pub open spec fn wf(&self) -> bool {
        self.active <= self.limit
    }

    /// Whether the traversal is over: nothing pending, nothing under way.
    pub open spec fn finished(&self) -> bool {
        self.pending@.len() == 0 && self.active == 0
    }

    /// The frontier at the start of a traversal: the root alone.
    pub fn new(root: String, limit: usize) -> (frontier: Frontier)
        ensures
            frontier.wf(),
            texts(frontier.pending@) == seq![root@],
            frontier.active == 0,
            frontier.limit == limit,
    {
        let mut pending: Vec<String> = Vec::new();
        pending.push(root);
        assert(texts(pending@) =~= seq![root@]);
        Frontier { pending, active: 0, limit }
    }

    /// Hands out a pending directory for expansion: the first one, whose
    /// place the last one takes. Nothing is handed out while the limit of
    /// running expansions is reached.
    pub fn next_task(&mut self) -> (task: Option<String>)
        ensures
            old(self).wf() ==> final(self).wf(),
            final(self).limit == old(self).limit,
            task is Some <==> old(self).pending@.len() > 0 && old(self).active < old(self).limit,
            task is None ==> *final(self) == *old(self),
            task is Some ==> {
                &&& task.unwrap() == old(self).pending@[0]
                &&& final(self).pending@ == old(self).pending@.update(
                    0,
                    old(self).pending@.last(),
                ).drop_last()
                &&& final(self).active == old(self).active + 1
            },
    {
        if self.pending.len() > 0 && self.active < self.limit {
            self.active = self.active + 1;
            Some(self.pending.swap_remove(0))
        } else {
            None
        }
    }

    /// Tells whether the traversal is over.
    pub fn is_finished(&self) -> (done: bool)
        ensures
            done == self.finished(),
    {
        self.pending.len() == 0 && self.active == 0
    }
}

impl CargoClean {
    /// A cleaner over normalized roots, with nothing discovered yet.
    pub fn new(hidden: bool, roots: Vec<String>, size: bool, ignore: Option<Vec<String>>) -> (cleaner:
        CargoClean)
        ensures
            cleaner.hidden == hidden,
            cleaner.roots == roots,
            cleaner.ignore == ignore,
            cleaner.workspaces@.len() == 0,
            cleaner.size_units is Some == size,
            held_units(cleaner.size_units).len() == 0,
    {
        CargoClean {
            hidden,
            workspaces: Vec::new(),
            roots,
            size_units: if size { Some(Vec::new()) } else { None },
            ignore,
        }
    }

    /// The flags under which this cleaner traverses.
    pub open spec fn flags(&self, size_only: bool) -> ScanFlags {
        ScanFlags { hidden: self.hidden, size: self.size_units is Some, size_only }
    }

    /// The flags under which this cleaner traverses.
    pub fn scan_flags(&self, size_only: bool) -> (flags: ScanFlags)
        ensures
            flags == self.flags(size_only),
    {
        ScanFlags { hidden: self.hidden, size: self.size_units.is_some(), size_only }
    }

    /// Merges the result of one expansion: its markers join the discovered
    /// projects, its directories join the frontier, and one running expansion
    /// is accounted as done.
    pub fn merge(&mut self, frontier: &mut Frontier, out: HandleTaskOut)
        ensures
            old(frontier).wf() ==> final(frontier).wf(),
            final(self).workspaces@ == old(self).workspaces@ + out.paths@,
            final(frontier).pending@ == old(frontier).pending@ + out.tasks@,
            final(frontier).active == if old(frontier).active > 0 {
                old(frontier).active - 1
            } else {
                0
            },
            final(frontier).limit == old(frontier).limit,
            final(self).hidden == old(self).hidden,
            final(self).roots == old(self).roots,
            final(self).ignore == old(self).ignore,
            final(self).size_units == old(self).size_units,
    {
        let mut out = out;
        self.workspaces.append(&mut out.paths);
        frontier.pending.append(&mut out.tasks);
        if frontier.active > 0 {
            frontier.active = frontier.active - 1;
        }
    }

    /// Takes in finished measurements. They are dropped when sizes are not
    /// tracked.
    pub fn record_sizes(&mut self, units: Vec<Option<u64>>)
        ensures
            final(self).size_units is Some == old(self).size_units is Some,
            old(self).size_units is Some ==> held_units(final(self).size_units) == held_units(
                old(self).size_units,
            ) + units@,
            final(self).hidden == old(self).hidden,
            final(self).roots == old(self).roots,
            final(self).ignore == old(self).ignore,
            final(self).workspaces == old(self).workspaces,
    {
        let mut units = units;
        match &mut self.size_units {
            Some(held) => {
                held.append(&mut units);
            },
            None => {},
        }
    }

    /// Sums the measurements taken in so far and forgets them. Failed
    /// measurements count as zero, and a sum beyond the range of `u64` is
    /// reported as `u64::MAX`. `None` when sizes are not tracked.
    pub fn get_size(&mut self) -> (total: Option<u64>)
        ensures
            total is Some == old(self).size_units is Some,
            total is Some ==> total.unwrap() as nat == if unit_sum(held_units(old(self).size_units))
                <= u64::MAX {
                unit_sum(held_units(old(self).size_units))
            } else {
                u64::MAX as nat
            },
            final(self).size_units is Some == old(self).size_units is Some,
            held_units(final(self).size_units).len() == 0,
            final(self).hidden == old(self).hidden,
            final(self).roots == old(self).roots,
            final(self).ignore == old(self).ignore,
            final(self).workspaces == old(self).workspaces,
    {
        match &mut self.size_units {
            None => None,
            Some(held) => {
                let total = sum_units(held);
                held.clear();
                Some(total)
            },
        }
    }
}

/// Sums measurements, a failed one counting as zero; a sum beyond the range
/// of `u64` gives `u64::MAX`.
pub fn sum_units(units: &Vec<Option<u64>>) -> (total: u64)
    ensures
        total as nat == if unit_sum(units@) <= u64::MAX {
            unit_sum(units@)
        } else {
            u64::MAX as nat
        },
{
    let mut total: u64 = 0;
    let mut i: usize = 0;
    assert(units@.take(0) =~= Seq::<Option<u64>>::empty());
    while i < units.len()
        invariant
            i <= units.len(),
            total as nat == if unit_sum(units@.take(i as int)) <= u64::MAX {
                unit_sum(units@.take(i as int))
            } else {
                u64::MAX as nat
            },
        decreases units.len() - i,
    {
        assert(units@.take(i + 1).drop_last() =~= units@.take(i as int));
        assert(units@.take(i + 1).last() == units@[i as int]);
        match units[i] {
            Some(size) => {
                total = total.saturating_add(size);
            },
            None => {},
        }
        i += 1;
    }
    assert(units@.take(units@.len() as int) =~= units@);
    total
}

} // verus!
