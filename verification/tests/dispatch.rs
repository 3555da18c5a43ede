use cargo_cleanall::clean::CargoClean;
use cargo_cleanall::dispatch::{clear_workspace, guard, judge, CleanCommand, Dispatch, Execution, Outcome};
use cargo_cleanall::error::Error;

fn strings(list: &[&str]) -> Vec<String> {
    list.iter().map(|s| s.to_string()).collect()
}

fn is_command_for(plan: &Result<CleanCommand, Error>, manifest: &str) -> bool {
    match plan {
        Ok(command) => {
            command.program == "cargo"
                && command.args == strings(&["clean", "--manifest-path", manifest])
        },
        Err(_) => false,
    }
}

#[test]
fn command_names_the_manifest() {
    let command = CleanCommand::new("/R/a/Cargo.toml".to_string());
    assert_eq!(command.program, "cargo");
    assert_eq!(command.args, strings(&["clean", "--manifest-path", "/R/a/Cargo.toml"]));
}

#[test]
fn own_project_is_skipped_under_protection() {
    let plan = clear_workspace("/work/cargo-cleanall/Cargo.toml".to_string(), true);
    assert!(matches!(plan, Err(Error::Skipped)));
    let plan = clear_workspace("/work/cargo-cleanall/Cargo.toml".to_string(), false);
    assert!(is_command_for(&plan, "/work/cargo-cleanall/Cargo.toml"));
}

#[test]
fn other_projects_are_cleaned_under_protection() {
    let plan = clear_workspace("/work/cargo-cleanall/sub/Cargo.toml".to_string(), true);
    assert!(is_command_for(&plan, "/work/cargo-cleanall/sub/Cargo.toml"));
    let plan = clear_workspace("/work/cargo-cleanall2/Cargo.toml".to_string(), true);
    assert!(is_command_for(&plan, "/work/cargo-cleanall2/Cargo.toml"));
}

#[test]
fn manifest_without_a_directory_is_refused_under_protection() {
    assert!(matches!(clear_workspace("/".to_string(), true), Err(Error::ParentNotFound)));
    assert!(matches!(clear_workspace("".to_string(), true), Err(Error::ParentNotFound)));
    assert!(is_command_for(&clear_workspace("/".to_string(), false), "/"));
}

#[test]
fn directory_without_a_name_is_refused_under_protection() {
    assert!(matches!(clear_workspace("/Cargo.toml".to_string(), true), Err(Error::NoFileName)));
    assert!(matches!(clear_workspace("Cargo.toml".to_string(), true), Err(Error::NoFileName)));
    assert!(matches!(clear_workspace("../Cargo.toml".to_string(), true), Err(Error::NoFileName)));
    assert!(is_command_for(&clear_workspace("/Cargo.toml".to_string(), false), "/Cargo.toml"));
}

#[test]
fn guard_decides_from_directory_and_name() {
    let dir = Some("/work/x".to_string());
    let own = Some("cargo-cleanall".to_string());
    let other = Some("x".to_string());
    assert!(guard(&None, &None, false).is_none());
    assert!(guard(&dir, &own, false).is_none());
    assert!(matches!(guard(&None, &own, true), Some(Error::ParentNotFound)));
    assert!(matches!(guard(&dir, &None, true), Some(Error::NoFileName)));
    assert!(matches!(guard(&dir, &own, true), Some(Error::Skipped)));
    assert!(guard(&dir, &other, true).is_none());
}

#[test]
fn run_plans_every_project_and_forgets_them() {
    let mut cleaner = CargoClean::new(false, strings(&["/R"]), true, None);
    cleaner.workspaces = strings(&[
        "/R/a/Cargo.toml",
        "/R/cargo-cleanall/Cargo.toml",
        "/R/b/Cargo.toml",
    ]);
    let batch = cleaner.run(true);
    assert!(cleaner.workspaces.is_empty());
    assert_eq!(batch.len(), 3);
    assert_eq!(batch[0].manifest, "/R/a/Cargo.toml");
    assert!(is_command_for(&batch[0].plan, "/R/a/Cargo.toml"));
    assert_eq!(batch[1].manifest, "/R/cargo-cleanall/Cargo.toml");
    assert!(matches!(batch[1].plan, Err(Error::Skipped)));
    assert!(is_command_for(&batch[2].plan, "/R/b/Cargo.toml"));
    assert!(cleaner.run(true).is_empty());
}

#[test]
fn one_failure_leaves_the_other_outcomes_alone() {
    let mut cleaner = CargoClean::new(false, strings(&["/R"]), true, None);
    cleaner.workspaces = strings(&["/R/a/Cargo.toml", "/R/b/Cargo.toml"]);
    let batch = cleaner.run(false);
    let failed = judge(&batch[0], Execution::Exited { code: Some(101) });
    let cleaned = judge(&batch[1], Execution::Exited { code: Some(0) });
    assert_eq!(failed, Outcome::Failed { code: Some(101) });
    assert_eq!(cleaned, Outcome::Cleaned);
}

#[test]
fn outcomes_tell_failures_apart() {
    let planned = Dispatch {
        manifest: "/R/a/Cargo.toml".to_string(),
        plan: Ok(CleanCommand::new("/R/a/Cargo.toml".to_string())),
    };
    let refused = Dispatch { manifest: "/R/a/Cargo.toml".to_string(), plan: Err(Error::Skipped) };
    assert_eq!(judge(&planned, Execution::NotStarted), Outcome::NotStarted);
    assert_eq!(judge(&planned, Execution::Exited { code: None }), Outcome::Failed { code: None });
    assert_eq!(
        judge(&planned, Execution::Exited { code: Some(-1) }),
        Outcome::Failed { code: Some(-1) }
    );
    assert_eq!(judge(&planned, Execution::Exited { code: Some(0) }), Outcome::Cleaned);
    assert_eq!(judge(&refused, Execution::Exited { code: Some(0) }), Outcome::Skipped);
    assert_eq!(judge(&refused, Execution::NotStarted), Outcome::Skipped);
}

#[test]
fn every_error_has_its_message() {
    let detail = "x".to_string();
    assert_eq!(Error::ArgNotSet("PATHS".to_string()).message(), "Argument not set");
    assert_eq!(Error::ArgNotSet("PATHS".to_string()).detail(), Some(&"PATHS".to_string()));
    assert_eq!(Error::ExecutionFailed(detail.clone()).message(), "Command failed to execute");
    assert_eq!(Error::GetArgFailed(detail.clone()).message(), "Failed to get argument");
    assert_eq!(Error::InitLoggerFailed(detail.clone()).message(), "Failed to start logger");
    assert_eq!(Error::JoinError(detail.clone()).message(), "Failed to join async");
    assert_eq!(Error::JoinError(detail.clone()).detail(), Some(&detail));
    assert_eq!(
        Error::ManifestToStrFailed.message(),
        "Manifest could not be converted into &str"
    );
    assert_eq!(Error::NoFileName.message(), "Failed to get File Name of parent");
    assert_eq!(Error::ParentNotFound.message(), "Parent not found");
    assert_eq!(Error::ParseArgsError(detail).message(), "Failed to parse Args");
    assert_eq!(Error::SizeNotCalculated.message(), "Size not Calculated");
    assert_eq!(Error::Skipped.message(), "Skipped");
    assert_eq!(Error::Skipped.detail(), None);
}
