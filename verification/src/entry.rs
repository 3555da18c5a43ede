//! Directory entries as plain values, and the decision taken for each of them.
use vstd::prelude::*;
use vstd::string::*;

verus! {

/// What kind of file system object an entry is.
#[derive(Clone, Copy, Debug, PartialEq, Eq, Structural)]
pub enum EntryKind {
    /// A directory, to be expanded later unless it is excluded.
    Directory,
    /// A regular file: may be a project marker, may be measured.
    File,
    /// Anything else; it is neither followed nor measured.
    Other,
}

/// One direct child of a directory that is being expanded.
#[derive(Debug)]
pub struct Entry {
    /// Full path of the entry.
    pub path: String,
    /// Last component of the path.
    pub name: String,
    pub kind: EntryKind,
}

/// The flags that steer a traversal.
#[derive(Clone, Copy, Debug, PartialEq, Eq, Structural)]
pub struct ScanFlags {
    /// Include entries whose name begins with a dot.
    pub hidden: bool,
    /// Measure the size of every regular file that is met.
    pub size: bool,
    /// Measure only: do not register project markers.
    pub size_only: bool,
}

/// What happens to one entry.
#[derive(Clone, Copy, Debug, PartialEq, Eq, Structural)]
pub enum Decision {
    /// The entry is passed over.
    Skip,
    /// The entry is a directory that joins the frontier.
    Descend,
    /// The entry is a regular file.
    Record { marker: bool, measure: bool },
}

/// The name of the file that marks a directory as a project.
pub open spec fn marker_name() -> Seq<char> {
    "Cargo.toml"@
}

/// A name is hidden when it begins with a dot.
pub open spec fn is_hidden_name(name: Seq<char>) -> bool {
    name.len() > 0 && name[0] == '.'
}

/// Whether `path` is one of the excluded directories.
pub open spec fn is_ignored(ignore: Option<Seq<Seq<char>>>, path: Seq<char>) -> bool {
    match ignore {
        Some(set) => set.contains(path),
        None => false,
    }
}

/// The strings of a list, each by its characters.
pub open spec fn texts(list: Seq<String>) -> Seq<Seq<char>> {
    Seq::new(list.len(), |i: int| list[i]@)
}

/// The paths of an exclusion list; `None` where no list was given.
pub open spec fn ignore_view(ignore: Option<Vec<String>>) -> Option<Seq<Seq<char>>> {
    match ignore {
        Some(v) => Some(texts(v@)),
        None => None,
    }
}

/// The decision for an entry, by the rules of the traversal: hidden entries
/// are skipped unless asked for; an excluded directory is skipped, any other
/// directory is followed; a regular file is a marker if it bears the marker
/// name (and markers are wanted), and is measured if sizes are tracked.
pub open spec fn decide(
    name: Seq<char>,
    path: Seq<char>,
    kind: EntryKind,
    flags: ScanFlags,
    ignore: Option<Seq<Seq<char>>>,
) -> Decision {
    if !flags.hidden && is_hidden_name(name) {
        Decision::Skip
    } else {
        match kind {
            EntryKind::Directory => if is_ignored(ignore, path) {
                Decision::Skip
            } else {
                Decision::Descend
            },
            EntryKind::File => Decision::Record {
                marker: !flags.size_only && name == marker_name(),
                measure: flags.size,
            },
            EntryKind::Other => Decision::Skip,
        }
    }
}

impl Entry {
    /// A copy of this entry.
    pub fn duplicate(&self) -> (copy: Entry)
        ensures
            copy == *self,
    {
        Entry { path: self.path.clone(), name: self.name.clone(), kind: self.kind }
    }

    /// The decision for this entry.
    pub open spec fn decision(&self, flags: ScanFlags, ignore: Option<Seq<Seq<char>>>) -> Decision {
        decide(self.name@, self.path@, self.kind, flags, ignore)
    }
}

/// Tells whether a name begins with a dot.
pub fn starts_with_dot(name: &str) -> (b: bool)
    ensures
        b == is_hidden_name(name@),
{
    name.unicode_len() > 0 && name.get_char(0) == '.'
}

/// Tells whether a name is the marker file's name.
pub fn is_marker_name(name: &String) -> (b: bool)
    ensures
        b == (name@ == marker_name()),
{
    let marker: String = "Cargo.toml".to_owned();
    *name == marker
}

/// Looks a path up in a list of paths.
pub fn contains_path(list: &Vec<String>, path: &String) -> (b: bool)
    ensures
        b == texts(list@).contains(path@),
{
    let mut i: usize = 0;
    while i < list.len()
        invariant
            i <= list.len(),
            forall|j: int| 0 <= j < i ==> texts(list@)[j] != path@,
        decreases list.len() - i,
    {
        if list[i] == *path {
            assert(texts(list@)[i as int] == path@);
            return true;
        }
        i += 1;
    }
    false
}

/// Looks a path up in the exclusion list.
pub fn ignore_contains(ignore: &Option<Vec<String>>, path: &String) -> (b: bool)
    ensures
        b == is_ignored(ignore_view(*ignore), path@),
{
    match ignore {
        None => false,
        Some(list) => contains_path(list, path),
    }
}

/// Decides what happens to one entry of a directory.
pub fn classify(entry: &Entry, flags: ScanFlags, ignore: &Option<Vec<String>>) -> (d: Decision)
    ensures
        d == entry.decision(flags, ignore_view(*ignore)),
{
    if !flags.hidden && starts_with_dot(entry.name.as_str()) {
        return Decision::Skip;
    }
    match entry.kind {
        EntryKind::Directory => {
            if ignore_contains(ignore, &entry.path) {
                Decision::Skip
            } else {
                Decision::Descend
            }
        },
        EntryKind::File => Decision::Record {
            marker: !flags.size_only && is_marker_name(&entry.name),
            measure: flags.size,
        },
        EntryKind::Other => Decision::Skip,
    }
}

} // verus!
