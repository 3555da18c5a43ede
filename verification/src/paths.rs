//! Normalization of the paths that a user names: roots and exclusions are
//! made absolute before a traversal starts, and what cannot be resolved is
//! left out.
use vstd::prelude::*;
use std::path::Path;
use path_absolutize::Absolutize;
use crate::entry::texts;

verus! {

/// The absolute form of `path` as seen from the directory `cwd`, where there
/// is one: what `path_absolutize` computes for the two. It depends on the two
/// texts alone.
pub uninterp spec fn absolutized(path: Seq<char>, cwd: Seq<char>) -> Option<Seq<char>>;

/// The path without its last component, where it has one: what
/// `std::path::Path::parent` gives for the text.
pub uninterp spec fn parent_of(path: Seq<char>) -> Option<Seq<char>>;

/// A path is rooted when it begins with a slash.
pub open spec fn is_rooted(path: Seq<char>) -> bool {
    path.len() > 0 && path[0] == '/'
}

/// The characters of an optional string.
pub open spec fn text_of(s: Option<String>) -> Option<Seq<char>> {
    match s {
        Some(s) => Some(s@),
        None => None,
    }
}

/// Calls `path_absolutize::Absolutize::absolutize_from` on `path` with `cwd`
/// as the working directory. The claim: the outcome is the one named
/// `absolutized` for the two texts, `None` standing for the error of the
/// call. The call walks the components of both paths and reads nothing else;
/// with a rooted `cwd` its list of components never runs empty, which is what
/// it needs to return.
#[verifier::external_body]
fn absolutize_from(path: &str, cwd: &str) -> (resolved: Option<String>)
    requires
        is_rooted(cwd@),
    ensures
        text_of(resolved) == absolutized(path@, cwd@),
{
    Path::new(path).absolutize_from(cwd).ok().map(|p| p.to_string_lossy().into_owned())
}

/// Calls `std::path::Path::parent`. The claim: the outcome is the one named
/// `parent_of` for the text.
#[verifier::external_body]
pub(crate) fn path_parent(path: &str) -> (parent: Option<String>)
    ensures
        text_of(parent) == parent_of(path@),
{
    Path::new(path).parent().map(|p| p.to_string_lossy().into_owned())
}

/// Tells whether a path begins with a slash.
pub fn starts_at_root(path: &str) -> (b: bool)
    ensures
        b == is_rooted(path@),
{
    path.unicode_len() > 0 && path.get_char(0) == '/'
}

/// What resolving `path` from `cwd` gives: its absolute form when `cwd` is
/// rooted and the path can be resolved, else nothing.
pub open spec fn resolved(path: Seq<char>, cwd: Seq<char>) -> Option<Seq<char>> {
    if is_rooted(cwd) {
        absolutized(path, cwd)
    } else {
        None
    }
}

/// Resolves a path that a user named to its absolute form, as seen from the
/// working directory `cwd`. A path cannot be resolved from a working
/// directory that is not rooted.
pub fn resolve_path(path: &str, cwd: &str) -> (out: Option<String>)
    ensures
        text_of(out) == resolved(path@, cwd@),
{
    if starts_at_root(cwd) {
        absolutize_from(path, cwd)
    } else {
        None
    }
}

/// The values that are present in `items`, in order.
pub open spec fn present(items: Seq<Option<Seq<char>>>) -> Seq<Seq<char>>
    decreases items.len(),
{
    if items.len() == 0 {
        Seq::empty()
    } else {
        match items.last() {
            Some(s) => present(items.drop_last()).push(s),
            None => present(items.drop_last()),
        }
    }
}

/// A value that is present in `items` is among those that are kept.
pub proof fn lemma_present_keeps(items: Seq<Option<Seq<char>>>, i: int)
    requires
        0 <= i < items.len(),
        items[i] is Some,
    ensures
        present(items).contains(items[i].unwrap()),
    decreases items.len(),
{
    let before = present(items.drop_last());
    if i == items.len() - 1 {
        assert(present(items) == before.push(items[i].unwrap()));
        assert(present(items)[before.len() as int] == items[i].unwrap());
    } else {
        lemma_present_keeps(items.drop_last(), i);
        let k = choose|k: int| 0 <= k < before.len() && before[k] == items[i].unwrap();
        assert(present(items)[k] == items[i].unwrap());
    }
}

/// The outcomes of resolving each of `paths` from `cwd`, in order.
pub open spec fn resolved_each(paths: Seq<Seq<char>>, cwd: Seq<char>) -> Seq<Option<Seq<char>>> {
    Seq::new(paths.len(), |i: int| resolved(paths[i], cwd))
}

/// The outcomes of a list of resolutions, each by its characters.
pub open spec fn outcome_texts(items: Seq<Option<String>>) -> Seq<Option<Seq<char>>> {
    Seq::new(items.len(), |i: int| text_of(items[i]))
}

/// Keeps the paths that were resolved and drops the others; the order stays.
pub fn keep_resolved(outcomes: Vec<Option<String>>) -> (kept: Vec<String>)
    ensures
        texts(kept@) == present(outcome_texts(outcomes@)),
{
    let mut outcomes = outcomes;
    let ghost all = outcome_texts(outcomes@);
    let mut kept: Vec<String> = Vec::new();
    let n = outcomes.len();
    let mut i: usize = 0;
    assert(all.take(0) =~= Seq::<Option<Seq<char>>>::empty());
    assert(texts(kept@) =~= present(all.take(0)));
    while i < n
        invariant
            i <= n,
            n == outcomes.len(),
            all.len() == n,
            forall|j: int| i <= j < n ==> text_of(#[trigger] outcomes@[j]) == all[j],
            texts(kept@) == present(all.take(i as int)),
        decreases n - i,
    {
        let ghost before = kept@;
        let ghost held = outcomes@;
        assert(text_of(outcomes@[i as int]) == all[i as int]);
        assert(all.take(i + 1).drop_last() =~= all.take(i as int));
        assert(all.take(i + 1).last() == all[i as int]);
        let mut slot: Option<String> = None;
        std::mem::swap(&mut slot, &mut outcomes[i]);
        assert(forall|j: int| i < j < n ==> outcomes@[j] == held[j]);
        match slot {
            Some(path) => {
                kept.push(path);
                assert(texts(kept@) =~= texts(before).push(path@));
            },
            None => {},
        }
        i += 1;
    }
    assert(all.take(n as int) =~= all);
    kept
}

/// Resolves the roots that a user named. A root that cannot be resolved is
/// dropped; the others keep their order.
pub fn resolve_roots(paths: &Vec<String>, cwd: &str) -> (roots: Vec<String>)
    ensures
        texts(roots@) == present(resolved_each(texts(paths@), cwd@)),
{
    let mut outcomes: Vec<Option<String>> = Vec::new();
    let mut i: usize = 0;
    while i < paths.len()
        invariant
            i <= paths.len(),
            outcome_texts(outcomes@) == resolved_each(texts(paths@), cwd@).take(i as int),
        decreases paths.len() - i,
    {
        let ghost before = outcomes@;
        let outcome = resolve_path(paths[i].as_str(), cwd);
        outcomes.push(outcome);
        assert(outcome_texts(outcomes@) =~= outcome_texts(before).push(text_of(outcome)));
        assert(outcome_texts(outcomes@) =~= resolved_each(texts(paths@), cwd@).take(i + 1));
        i += 1;
    }
    assert(resolved_each(texts(paths@), cwd@).take(paths@.len() as int) =~= resolved_each(
        texts(paths@),
        cwd@,
    ));
    keep_resolved(outcomes)
}

/// The directory that an exclusion stands for: the path itself, or, where the
/// path is a regular file, the directory that holds it, if `parent` names
/// one.
pub open spec fn excluded_directory(
    path: Seq<char>,
    is_file: bool,
    parent: Option<Seq<char>>,
) -> Option<Seq<char>> {
    if is_file {
        parent
    } else {
        Some(path)
    }
}

/// Picks the directory that an exclusion stands for, given the parent of its
/// path.
pub fn substitute_parent(path: String, is_file: bool, parent: Option<String>) -> (out: Option<String>)
    ensures
        text_of(out) == excluded_directory(path@, is_file, text_of(parent)),
{
    if is_file {
        parent
    } else {
        Some(path)
    }
}

/// Turns a resolved exclusion into the directory to exclude: a path that is a
/// regular file stands for the whole directory that holds it. An exclusion
/// without such a directory is dropped.
pub fn ignore_directory(path: String, is_file: bool) -> (out: Option<String>)
    ensures
        text_of(out) == excluded_directory(path@, is_file, parent_of(path@)),
{
    let parent = if is_file {
        path_parent(path.as_str())
    } else {
        None
    };
    substitute_parent(path, is_file, parent)
}

/// An exclusion that a user named, after its path was resolved.
#[derive(Debug)]
pub struct Exclusion {
    /// The absolute path.
    pub path: String,
    /// Whether the path is a regular file.
    pub is_file: bool,
}

/// The directories that a list of exclusions may stand for, in order.
pub open spec fn excluded_each(list: Seq<Exclusion>) -> Seq<Option<Seq<char>>> {
    Seq::new(
        list.len(),
        |i: int| excluded_directory(list[i].path@, list[i].is_file, parent_of(list[i].path@)),
    )
}

/// Turns the resolved exclusions into the directories to exclude; the order
/// stays, and an exclusion that stands for no directory is dropped.
pub fn resolve_ignore(list: &Vec<Exclusion>) -> (ignore: Vec<String>)
    ensures
        texts(ignore@) == present(excluded_each(list@)),
{
    let mut outcomes: Vec<Option<String>> = Vec::new();
    let mut i: usize = 0;
    while i < list.len()
        invariant
            i <= list.len(),
            outcome_texts(outcomes@) == excluded_each(list@).take(i as int),
        decreases list.len() - i,
    {
        let ghost before = outcomes@;
        let outcome = ignore_directory(list[i].path.clone(), list[i].is_file);
        outcomes.push(outcome);
        assert(outcome_texts(outcomes@) =~= outcome_texts(before).push(text_of(outcome)));
        assert(outcome_texts(outcomes@) =~= excluded_each(list@).take(i + 1));
        i += 1;
    }
    assert(excluded_each(list@).take(list@.len() as int) =~= excluded_each(list@));
    keep_resolved(outcomes)
}

} // verus!
