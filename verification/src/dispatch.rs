//! The cleanup of the discovered projects: which command is run for which
//! project, which projects are left alone, and how each run is judged.
use vstd::prelude::*;
use std::path::Path;
use crate::clean::CargoClean;
use crate::entry::texts;
use crate::error::Error;
use crate::paths::{parent_of, path_parent, text_of};

verus! {

/// The last component of a path, where it has one: what
/// `std::path::Path::file_name` gives for the text.
pub uninterp spec fn file_name_of(path: Seq<char>) -> Option<Seq<char>>;

/// Calls `std::path::Path::file_name`. The claim: the outcome is the one
/// named `file_name_of` for the text.
#[verifier::external_body]
fn path_file_name(path: &str) -> (name: Option<String>)
    ensures
        text_of(name) == file_name_of(path@),
{
    Path::new(path).file_name().map(|n| n.to_string_lossy().into_owned())
}

/// The name of the directory that this tool is built in.
pub open spec fn own_name() -> Seq<char> {
    "cargo-cleanall"@
}

/// A command line: a program and its arguments.
#[derive(Debug)]
pub struct CleanCommand {
    pub program: String,
    pub args: Vec<String>,
}

impl CleanCommand {
    /// Whether this is the cleanup command for the project with the given
    /// manifest.
    pub open spec fn cleans(&self, manifest: Seq<char>) -> bool {
        &&& self.program@ == "cargo"@
        &&& texts(self.args@) == seq!["clean"@, "--manifest-path"@, manifest]
    }

    /// The cleanup command for the project with the given manifest.
    pub fn new(manifest: String) -> (command: CleanCommand)
        ensures
            command.cleans(manifest@),
    {
        let mut args: Vec<String> = Vec::new();
        args.push("clean".to_owned());
        args.push("--manifest-path".to_owned());
        args.push(manifest);
        assert(texts(args@) =~= seq!["clean"@, "--manifest-path"@, manifest@]);
        CleanCommand { program: "cargo".to_owned(), args }
    }
}

/// Why a project is left alone, if it is: with protection on, a project
/// whose manifest has no directory above it, or whose directory has no name,
/// is not touched, and neither is the project in the directory that bears
/// this tool's own name.
pub open spec fn refusal(
    parent: Option<Seq<char>>,
    dir_name: Option<Seq<char>>,
    protect: bool,
) -> Option<Error> {
    if !protect {
        None
    } else if parent is None {
        Some(Error::ParentNotFound)
    } else if dir_name is None {
        Some(Error::NoFileName)
    } else if dir_name.unwrap() == own_name() {
        Some(Error::Skipped)
    } else {
        None
    }
}

/// The name of the directory that holds the manifest, where both the
/// directory and its name exist.
pub open spec fn dir_name_of(manifest: Seq<char>) -> Option<Seq<char>> {
    match parent_of(manifest) {
        Some(dir) => file_name_of(dir),
        None => None,
    }
}

/// Decides whether a project is left alone, from the directory of its
/// manifest and the name of that directory.
pub fn guard(parent: &Option<String>, dir_name: &Option<String>, protect: bool) -> (verdict: Option<
    Error,
>)
    ensures
        verdict == refusal(text_of(*parent), text_of(*dir_name), protect),
{
    if !protect {
        return None;
    }
    if parent.is_none() {
        return Some(Error::ParentNotFound);
    }
    match dir_name {
        None => Some(Error::NoFileName),
        Some(name) => {
            let own: String = "cargo-cleanall".to_owned();
            if *name == own {
                Some(Error::Skipped)
            } else {
                None
            }
        },
    }
}

/// Whether `plan` is what is to be done for the project with the given
/// manifest: the refusal that applies, or else the cleanup command.
pub open spec fn plans(plan: Result<CleanCommand, Error>, manifest: Seq<char>, protect: bool) -> bool {
    match refusal(parent_of(manifest), dir_name_of(manifest), protect) {
        Some(e) => plan == Err::<CleanCommand, Error>(e),
        None => plan is Ok && plan->Ok_0.cleans(manifest),
    }
}

/// Plans the cleanup of one project: the command to run, or the reason for
/// which the project is left alone.
pub fn clear_workspace(manifest: String, protect: bool) -> (plan: Result<CleanCommand, Error>)
    ensures
        plans(plan, manifest@, protect),
{
    let parent = if protect {
        path_parent(manifest.as_str())
    } else {
        None
    };
    let dir_name = match &parent {
        Some(dir) => path_file_name(dir.as_str()),
        None => None,
    };
    match guard(&parent, &dir_name, protect) {
        Some(e) => Err(e),
        None => Ok(CleanCommand::new(manifest)),
    }
}

/// What is to be done for one discovered project.
#[derive(Debug)]
pub struct Dispatch {
    /// The manifest of the project.
    pub manifest: String,
    /// The command to run, or why none is run.
    pub plan: Result<CleanCommand, Error>,
}

impl CargoClean {
    /// Plans the cleanup of every discovered project, in the order of
    /// discovery, and forgets the projects: a later traversal starts anew.
    pub fn run(&mut self, protect: bool) -> (batch: Vec<Dispatch>)
        ensures
            batch@.len() == old(self).workspaces@.len(),
            forall|i: int|
                0 <= i < batch@.len() ==> {
                    &&& (#[trigger] batch@[i]).manifest@ == old(self).workspaces@[i]@
                    &&& plans(batch@[i].plan, old(self).workspaces@[i]@, protect)
                },
            final(self).workspaces@.len() == 0,
            final(self).hidden == old(self).hidden,
            final(self).roots == old(self).roots,
            final(self).ignore == old(self).ignore,
            final(self).size_units == old(self).size_units,
    {
        let mut projects: Vec<String> = Vec::new();
        projects.append(&mut self.workspaces);
        let mut batch: Vec<Dispatch> = Vec::new();
        let mut i: usize = 0;
        while i < projects.len()
            invariant
                i <= projects.len(),
                batch@.len() == i,
                forall|j: int|
                    0 <= j < i ==> {
                        &&& (#[trigger] batch@[j]).manifest@ == projects@[j]@
                        &&& plans(batch@[j].plan, projects@[j]@, protect)
                    },
            decreases projects.len() - i,
        {
            let manifest = projects[i].clone();
            let plan = clear_workspace(projects[i].clone(), protect);
            batch.push(Dispatch { manifest, plan });
            i += 1;
        }
        batch
    }
}

/// How the cleanup of one project ended.
#[derive(Clone, Copy, Debug, PartialEq, Eq, Structural)]
pub enum Outcome {
    /// The command ran and reported success.
    Cleaned,
    /// The command ran and reported failure; the exit code, where there is
    /// one.
    Failed { code: Option<i32> },
    /// The command could not be started.
    NotStarted,
    /// The project was left alone.
    Skipped,
}

/// How a command ended, if it was started at all.
#[derive(Clone, Copy, Debug, PartialEq, Eq, Structural)]
pub enum Execution {
    /// The command could not be started.
    NotStarted,
    /// The command ran to its end; the exit code, where there is one.
    Exited { code: Option<i32> },
}

/// The outcome for a project, from what was planned for it and how the
/// command ended: a project with no command is skipped whatever else is
/// reported, a command that did not start is told apart from one that
/// failed, and only exit code zero is a success.
pub open spec fn outcome_of(refused: bool, execution: Execution) -> Outcome {
    if refused {
        Outcome::Skipped
    } else {
        match execution {
            Execution::NotStarted => Outcome::NotStarted,
            Execution::Exited { code } => if code == Some(0i32) {
                Outcome::Cleaned
            } else {
                Outcome::Failed { code }
            },
        }
    }
}

/// Judges how the cleanup of one project ended.
pub fn judge(dispatch: &Dispatch, execution: Execution) -> (outcome: Outcome)
    ensures
        outcome == outcome_of(dispatch.plan is Err, execution),
{
    match &dispatch.plan {
        Err(_) => Outcome::Skipped,
        Ok(_) => match execution {
            Execution::NotStarted => Outcome::NotStarted,
            Execution::Exited { code } => match code {
                Some(0) => Outcome::Cleaned,
                _ => Outcome::Failed { code },
            },
        },
    }
}

} // verus!
