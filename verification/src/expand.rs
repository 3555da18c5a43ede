//! Expansion of one directory: what its direct children add to a traversal.
use vstd::prelude::*;
use crate::entry::{classify, ignore_view, texts, Decision, Entry, ScanFlags};

verus! {

/// What the expansion of one directory yields.
#[derive(Debug)]
pub struct HandleTaskOut {
    /// Marker files found among the children, in listing order.
    pub paths: Vec<String>,
    /// Files whose size is to be measured, in listing order; `None` when sizes
    /// are not tracked.
    pub measure: Option<Vec<String>>,
    /// Directories that join the frontier, in listing order.
    pub tasks: Vec<String>,
}

/// The entries of a listing for which the decision is to follow them.
pub open spec fn descends(flags: ScanFlags, ignore: Option<Seq<Seq<char>>>) -> spec_fn(Entry) -> bool {
    |e: Entry| e.decision(flags, ignore) == Decision::Descend
}

/// The entries of a listing that are recorded as project markers.
pub open spec fn marks(flags: ScanFlags, ignore: Option<Seq<Seq<char>>>) -> spec_fn(Entry) -> bool {
    |e: Entry|
        match e.decision(flags, ignore) {
            Decision::Record { marker, .. } => marker,
            _ => false,
        }
}

/// The entries of a listing whose size is measured.
pub open spec fn measures(flags: ScanFlags, ignore: Option<Seq<Seq<char>>>) -> spec_fn(Entry) -> bool {
    |e: Entry|
        match e.decision(flags, ignore) {
            Decision::Record { measure, .. } => measure,
            _ => false,
        }
}

/// The paths of the entries that `want` selects, in listing order.
pub open spec fn selected_paths(entries: Seq<Entry>, want: spec_fn(Entry) -> bool) -> Seq<Seq<char>> {
    entries.filter(want).map_values(|e: Entry| e.path@)
}

/// Selecting from a listing that grew by one entry.
pub proof fn lemma_selected_paths_push(entries: Seq<Entry>, e: Entry, want: spec_fn(Entry) -> bool)
    ensures
        selected_paths(entries.push(e), want) == if want(e) {
            selected_paths(entries, want).push(e.path@)
        } else {
            selected_paths(entries, want)
        },
{
    entries.lemma_filter_push(e, want);
    if want(e) {
        assert(entries.filter(want).push(e).map_values(|x: Entry| x.path@)
            =~= entries.filter(want).map_values(|x: Entry| x.path@).push(e.path@));
    }
}

impl HandleTaskOut {
    /// An empty result, with a measurement list exactly when sizes are tracked.
    pub fn new(size: bool) -> (out: HandleTaskOut)
        ensures
            out.paths@.len() == 0,
            out.tasks@.len() == 0,
            out.measure is Some == size,
            size ==> out.measure.unwrap()@.len() == 0,
    {
        HandleTaskOut {
            measure: if size { Some(Vec::new()) } else { None },
            paths: Vec::new(),
            tasks: Vec::new(),
        }
    }

    /// The paths scheduled for measuring; empty when sizes are not tracked.
    pub open spec fn measured(&self) -> Seq<Seq<char>> {
        match self.measure {
            Some(list) => texts(list@),
            None => Seq::empty(),
        }
    }

    /// Whether this is the expansion of a directory with the given children.
    pub open spec fn expands(
        &self,
        entries: Seq<Entry>,
        flags: ScanFlags,
        ignore: Option<Seq<Seq<char>>>,
    ) -> bool {
        &&& texts(self.paths@) == selected_paths(entries, marks(flags, ignore))
        &&& texts(self.tasks@) == selected_paths(entries, descends(flags, ignore))
        &&& self.measure is Some == flags.size
        &&& self.measured() == selected_paths(entries, measures(flags, ignore))
    }
}

/// Expands one directory from the listing of its direct children: every
/// child is classified on its own, nothing below a child is looked at.
pub fn handle_task(
    entries: &Vec<Entry>,
    flags: ScanFlags,
    ignore: &Option<Vec<String>>,
) -> (out: HandleTaskOut)
    ensures
        out.expands(entries@, flags, ignore_view(*ignore)),
{
    let mut out = HandleTaskOut::new(flags.size);
    let ghost ig = ignore_view(*ignore);
    let mut i: usize = 0;
    proof {
        assert(entries@.take(0) =~= Seq::<Entry>::empty());
        assert(texts(out.paths@) =~= selected_paths(entries@.take(0), marks(flags, ig)));
        assert(texts(out.tasks@) =~= selected_paths(entries@.take(0), descends(flags, ig)));
        assert(out.measured() =~= selected_paths(entries@.take(0), measures(flags, ig)));
    }
    while i < entries.len()
        invariant
            i <= entries.len(),
            ig == ignore_view(*ignore),
            out.expands(entries@.take(i as int), flags, ig),
        decreases entries.len() - i,
    {
        let entry = &entries[i];
        let ghost before = entries@.take(i as int);
        proof {
            assert(entries@.take(i + 1) =~= before.push(*entry));
            lemma_selected_paths_push(before, *entry, marks(flags, ig));
            lemma_selected_paths_push(before, *entry, descends(flags, ig));
            lemma_selected_paths_push(before, *entry, measures(flags, ig));
        }
        match classify(entry, flags, ignore) {
            Decision::Skip => {},
            Decision::Descend => {
                let ghost old_tasks = out.tasks@;
                out.tasks.push(entry.path.clone());
                assert(texts(out.tasks@) =~= texts(old_tasks).push(entry.path@));
            },
            Decision::Record { marker, measure } => {
                if marker {
                    let ghost old_paths = out.paths@;
                    out.paths.push(entry.path.clone());
                    assert(texts(out.paths@) =~= texts(old_paths).push(entry.path@));
                }
                if measure {
                    match &mut out.measure {
                        Some(list) => {
                            let ghost old_list = list@;
                            list.push(entry.path.clone());
                            assert(texts(list@) =~= texts(old_list).push(entry.path@));
                        },
                        None => {},
                    }
                }
            },
        }
        i += 1;
    }
    assert(entries@.take(entries@.len() as int) =~= entries@);
    out
}

} // verus!
