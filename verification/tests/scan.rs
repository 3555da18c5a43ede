use cargo_cleanall::clean::{sum_units, CargoClean, Frontier};
use cargo_cleanall::entry::{
    classify, contains_path, ignore_contains, is_marker_name, starts_with_dot, Decision, Entry,
    EntryKind, ScanFlags,
};
use cargo_cleanall::expand::{handle_task, HandleTaskOut};
use cargo_cleanall::tree::{find_tree, scan_tree, Node};

fn entry(dir: &str, name: &str, kind: EntryKind) -> Entry {
    Entry { path: format!("{dir}/{name}"), name: name.to_string(), kind }
}

fn file(dir: &str, name: &str, size: u64) -> Node {
    Node { entry: entry(dir, name, EntryKind::File), size: Some(size), children: Vec::new() }
}

fn dir(parent: &str, name: &str, children: Vec<Node>) -> Node {
    Node { entry: entry(parent, name, EntryKind::Directory), size: None, children }
}

fn sorted(mut v: Vec<String>) -> Vec<String> {
    v.sort();
    v
}

fn paths(entries: &[Entry]) -> Vec<String> {
    sorted(entries.iter().map(|e| e.path.clone()).collect())
}

fn strings(list: &[&str]) -> Vec<String> {
    list.iter().map(|s| s.to_string()).collect()
}

fn flags(hidden: bool, size: bool, size_only: bool) -> ScanFlags {
    ScanFlags { hidden, size, size_only }
}

/// R holds the projects a and b and a hidden directory with a third manifest.
fn sample() -> Node {
    dir(
        "",
        "R",
        vec![
            dir("/R", "a", vec![file("/R/a", "Cargo.toml", 10)]),
            dir("/R", "b", vec![file("/R/b", "Cargo.toml", 20)]),
            dir("/R", ".hidden", vec![file("/R/.hidden", "Cargo.toml", 5)]),
        ],
    )
}

/// The sample after a cleanup that left nothing behind but the manifests,
/// which shrank project b's directory by a build directory of 70 bytes.
fn sample_with_target() -> Node {
    dir(
        "",
        "R",
        vec![
            dir("/R", "a", vec![file("/R/a", "Cargo.toml", 10)]),
            dir(
                "/R",
                "b",
                vec![
                    file("/R/b", "Cargo.toml", 20),
                    dir("/R/b", "target", vec![file("/R/b/target", "out.bin", 70)]),
                ],
            ),
            dir("/R", ".hidden", vec![file("/R/.hidden", "Cargo.toml", 5)]),
        ],
    )
}

#[test]
fn default_flags_find_two_projects_and_thirty_bytes() {
    let mut cleaner = CargoClean::new(false, strings(&["/R"]), true, None);
    let visited = scan_tree(&mut cleaner, &sample(), false);
    assert_eq!(paths(&visited), strings(&["/R", "/R/a", "/R/b"]));
    assert_eq!(
        sorted(cleaner.workspaces.clone()),
        strings(&["/R/a/Cargo.toml", "/R/b/Cargo.toml"])
    );
    assert_eq!(cleaner.get_size(), Some(30));
    assert_eq!(cleaner.get_size(), Some(0));
}

#[test]
fn before_and_after_totals_differ_by_what_was_removed() {
    let mut cleaner = CargoClean::new(false, strings(&["/R"]), true, None);
    cleaner.get_paths(&vec![sample_with_target()], false);
    let before = cleaner.get_size();
    assert_eq!(before, Some(100));
    let batch = cleaner.run(false);
    assert_eq!(batch.len(), 2);
    assert!(cleaner.workspaces.is_empty());
    cleaner.get_paths(&vec![sample()], true);
    assert!(cleaner.workspaces.is_empty());
    assert_eq!(cleaner.get_size(), Some(30));
}

#[test]
fn hidden_flag_and_no_exclusions_visit_every_directory_once() {
    let mut cleaner = CargoClean::new(true, strings(&["/R"]), true, None);
    let visited = scan_tree(&mut cleaner, &sample_with_target(), false);
    assert_eq!(
        paths(&visited),
        strings(&["/R", "/R/.hidden", "/R/a", "/R/b", "/R/b/target"])
    );
    assert_eq!(
        sorted(cleaner.workspaces.clone()),
        strings(&["/R/.hidden/Cargo.toml", "/R/a/Cargo.toml", "/R/b/Cargo.toml"])
    );
    assert_eq!(cleaner.get_size(), Some(105));
}

#[test]
fn empty_exclusion_list_excludes_nothing() {
    let mut cleaner = CargoClean::new(true, strings(&["/R"]), true, Some(Vec::new()));
    let visited = scan_tree(&mut cleaner, &sample(), false);
    assert_eq!(visited.len(), 4);
    assert_eq!(cleaner.get_size(), Some(35));
}

#[test]
fn excluded_directory_is_not_expanded_and_adds_nothing() {
    let mut cleaner = CargoClean::new(true, strings(&["/R"]), true, Some(strings(&["/R/b"])));
    let visited = scan_tree(&mut cleaner, &sample_with_target(), false);
    assert_eq!(paths(&visited), strings(&["/R", "/R/.hidden", "/R/a"]));
    assert_eq!(
        sorted(cleaner.workspaces.clone()),
        strings(&["/R/.hidden/Cargo.toml", "/R/a/Cargo.toml"])
    );
    assert_eq!(cleaner.get_size(), Some(15));
}

#[test]
fn excluded_root_is_still_expanded() {
    let mut cleaner = CargoClean::new(false, strings(&["/R"]), true, Some(strings(&["/R"])));
    let visited = scan_tree(&mut cleaner, &sample(), false);
    assert_eq!(paths(&visited), strings(&["/R", "/R/a", "/R/b"]));
}

#[test]
fn hidden_entries_are_neither_followed_nor_measured() {
    let tree = dir(
        "",
        "R",
        vec![
            file("/R", ".secret", 1000),
            file("/R", "plain", 7),
            dir("/R", ".git", vec![file("/R/.git", "Cargo.toml", 50)]),
        ],
    );
    let mut cleaner = CargoClean::new(false, strings(&["/R"]), true, None);
    let visited = scan_tree(&mut cleaner, &tree, false);
    assert_eq!(paths(&visited), strings(&["/R"]));
    assert!(cleaner.workspaces.is_empty());
    assert_eq!(cleaner.get_size(), Some(7));
}

#[test]
fn scanning_twice_gives_the_same_projects_and_total() {
    let mut first = CargoClean::new(false, strings(&["/R"]), true, None);
    let mut second = CargoClean::new(false, strings(&["/R"]), true, None);
    let seen = scan_tree(&mut first, &sample_with_target(), false);
    let then = scan_tree(&mut second, &sample_with_target(), false);
    assert_eq!(paths(&seen), paths(&then));
    assert_eq!(sorted(first.workspaces.clone()), sorted(second.workspaces.clone()));
    assert_eq!(first.get_size(), second.get_size());
}

#[test]
fn size_only_registers_no_projects() {
    let mut cleaner = CargoClean::new(false, strings(&["/R"]), true, None);
    scan_tree(&mut cleaner, &sample(), true);
    assert!(cleaner.workspaces.is_empty());
    assert_eq!(cleaner.get_size(), Some(30));
}

#[test]
fn without_size_tracking_nothing_is_measured() {
    let mut cleaner = CargoClean::new(false, strings(&["/R"]), false, None);
    scan_tree(&mut cleaner, &sample(), false);
    assert_eq!(cleaner.workspaces.len(), 2);
    assert_eq!(cleaner.get_size(), None);
    cleaner.record_sizes(vec![Some(4)]);
    assert_eq!(cleaner.get_size(), None);
}

#[test]
fn failed_measurements_count_as_zero() {
    let tree = dir(
        "",
        "R",
        vec![
            Node { entry: entry("/R", "gone", EntryKind::File), size: None, children: Vec::new() },
            file("/R", "here", 12),
        ],
    );
    let mut cleaner = CargoClean::new(false, strings(&["/R"]), true, None);
    scan_tree(&mut cleaner, &tree, false);
    assert_eq!(cleaner.size_units, Some(vec![None, Some(12)]));
    assert_eq!(cleaner.get_size(), Some(12));
}

#[test]
fn sum_of_units_saturates() {
    assert_eq!(sum_units(&vec![]), 0);
    assert_eq!(sum_units(&vec![Some(1), None, Some(2)]), 3);
    assert_eq!(sum_units(&vec![Some(u64::MAX), Some(1)]), u64::MAX);
    assert_eq!(sum_units(&vec![Some(u64::MAX - 1), Some(1)]), u64::MAX);
}

#[test]
fn get_paths_goes_through_the_roots_in_turn() {
    let other = dir("", "S", vec![file("/S", "Cargo.toml", 3)]);
    let mut cleaner = CargoClean::new(false, strings(&["/S", "/missing", "/R"]), true, None);
    let visited = cleaner.get_paths(&vec![sample(), other], false);
    let order: Vec<String> = visited.iter().map(|e| e.path.clone()).collect();
    assert_eq!(order[0], "/S");
    assert_eq!(paths(&visited), strings(&["/R", "/R/a", "/R/b", "/S"]));
    assert_eq!(cleaner.workspaces[0], "/S/Cargo.toml");
    assert_eq!(cleaner.workspaces.len(), 3);
    assert_eq!(cleaner.get_size(), Some(33));
}

#[test]
fn find_tree_takes_the_first_match() {
    let trees = vec![
        dir("", "R", vec![]),
        dir("", "S", vec![file("/S", "x", 1)]),
        dir("", "S", vec![]),
    ];
    assert_eq!(find_tree(&trees, &"/S".to_string()).map(|t| t.children.len()), Some(1));
    assert!(find_tree(&trees, &"/T".to_string()).is_none());
}

#[test]
fn listing_and_answer_follow_the_children() {
    let tree = sample_with_target();
    let b = &tree.children[1];
    let listing = b.listing();
    assert_eq!(listing.len(), 2);
    assert_eq!(listing[0].path, "/R/b/Cargo.toml");
    assert_eq!(listing[1].kind, EntryKind::Directory);
    let (kids, sizes) = b.answer(flags(false, true, false), &None);
    assert_eq!(kids.len(), 1);
    assert_eq!(kids[0].entry.path, "/R/b/target");
    assert_eq!(sizes, vec![Some(20)]);
}

#[test]
fn classify_follows_the_rules() {
    let none = None;
    let f = flags(false, true, false);
    assert_eq!(classify(&entry("/R", ".x", EntryKind::Directory), f, &none), Decision::Skip);
    assert_eq!(classify(&entry("/R", ".x", EntryKind::File), f, &none), Decision::Skip);
    assert_eq!(classify(&entry("/R", "x", EntryKind::Directory), f, &none), Decision::Descend);
    assert_eq!(classify(&entry("/R", "x", EntryKind::Other), f, &none), Decision::Skip);
    assert_eq!(
        classify(&entry("/R", "x", EntryKind::File), f, &none),
        Decision::Record { marker: false, measure: true }
    );
    assert_eq!(
        classify(&entry("/R", "Cargo.toml", EntryKind::File), f, &none),
        Decision::Record { marker: true, measure: true }
    );
    assert_eq!(
        classify(&entry("/R", "Cargo.toml", EntryKind::File), flags(false, false, true), &none),
        Decision::Record { marker: false, measure: false }
    );
    assert_eq!(
        classify(&entry("/R", "Cargo.toml", EntryKind::Directory), f, &none),
        Decision::Descend
    );
    let ignore = Some(strings(&["/R/x", "/R/y"]));
    assert_eq!(classify(&entry("/R", "y", EntryKind::Directory), f, &ignore), Decision::Skip);
    assert_eq!(classify(&entry("/R", "z", EntryKind::Directory), f, &ignore), Decision::Descend);
    assert_eq!(
        classify(&entry("/R", "y", EntryKind::File), f, &ignore),
        Decision::Record { marker: false, measure: true }
    );
    assert_eq!(
        classify(&entry("/R", ".y", EntryKind::Directory), flags(true, true, false), &none),
        Decision::Descend
    );
}

#[test]
fn names_and_lists_are_told_apart() {
    assert!(starts_with_dot(".git"));
    assert!(starts_with_dot("."));
    assert!(!starts_with_dot(""));
    assert!(!starts_with_dot("a.b"));
    assert!(is_marker_name(&"Cargo.toml".to_string()));
    assert!(!is_marker_name(&"cargo.toml".to_string()));
    assert!(!is_marker_name(&"Cargo.toml.bak".to_string()));
    let list = strings(&["/a", "/b"]);
    assert!(contains_path(&list, &"/b".to_string()));
    assert!(!contains_path(&list, &"/c".to_string()));
    assert!(!ignore_contains(&None, &"/a".to_string()));
    assert!(ignore_contains(&Some(list), &"/a".to_string()));
}

#[test]
fn handle_task_sorts_the_children_of_one_directory() {
    let entries = vec![
        entry("/R", "src", EntryKind::Directory),
        entry("/R", "Cargo.toml", EntryKind::File),
        entry("/R", ".git", EntryKind::Directory),
        entry("/R", "target", EntryKind::Directory),
        entry("/R", "README", EntryKind::File),
        entry("/R", "sock", EntryKind::Other),
    ];
    let ignore = Some(strings(&["/R/target"]));
    let out = handle_task(&entries, flags(false, true, false), &ignore);
    assert_eq!(out.paths, strings(&["/R/Cargo.toml"]));
    assert_eq!(out.tasks, strings(&["/R/src"]));
    assert_eq!(out.measure, Some(strings(&["/R/Cargo.toml", "/R/README"])));
    let out = handle_task(&entries, flags(true, false, true), &None);
    assert!(out.paths.is_empty());
    assert_eq!(out.tasks, strings(&["/R/src", "/R/.git", "/R/target"]));
    assert_eq!(out.measure, None);
}

#[test]
fn empty_result_has_a_measure_list_only_with_sizes() {
    let with = HandleTaskOut::new(true);
    assert!(with.paths.is_empty() && with.tasks.is_empty());
    assert_eq!(with.measure, Some(Vec::new()));
    assert_eq!(HandleTaskOut::new(false).measure, None);
}

#[test]
fn frontier_hands_out_the_first_and_moves_the_last_up() {
    let mut cleaner = CargoClean::new(false, Vec::new(), true, None);
    let mut frontier = Frontier::new("/R".to_string(), 2);
    assert!(!frontier.is_finished());
    assert_eq!(frontier.next_task(), Some("/R".to_string()));
    assert_eq!(frontier.active, 1);
    assert_eq!(frontier.next_task(), None);
    assert!(!frontier.is_finished());
    let out = HandleTaskOut {
        paths: strings(&["/R/Cargo.toml"]),
        measure: Some(Vec::new()),
        tasks: strings(&["/R/a", "/R/b", "/R/c"]),
    };
    cleaner.merge(&mut frontier, out);
    assert_eq!(cleaner.workspaces, strings(&["/R/Cargo.toml"]));
    assert_eq!(frontier.active, 0);
    assert_eq!(frontier.next_task(), Some("/R/a".to_string()));
    assert_eq!(frontier.pending, strings(&["/R/c", "/R/b"]));
    assert_eq!(frontier.next_task(), Some("/R/c".to_string()));
    assert_eq!(frontier.next_task(), None);
    assert_eq!(frontier.active, 2);
    cleaner.merge(&mut frontier, HandleTaskOut::new(true));
    assert_eq!(frontier.next_task(), Some("/R/b".to_string()));
    cleaner.merge(&mut frontier, HandleTaskOut::new(true));
    cleaner.merge(&mut frontier, HandleTaskOut::new(true));
    assert!(frontier.is_finished());
    cleaner.merge(&mut frontier, HandleTaskOut::new(true));
    assert_eq!(frontier.active, 0);
}

#[test]
fn new_cleaner_holds_nothing() {
    let cleaner = CargoClean::new(true, strings(&["/R"]), true, Some(strings(&["/R/x"])));
    assert!(cleaner.hidden);
    assert_eq!(cleaner.roots, strings(&["/R"]));
    assert_eq!(cleaner.ignore, Some(strings(&["/R/x"])));
    assert!(cleaner.workspaces.is_empty());
    assert_eq!(cleaner.size_units, Some(Vec::new()));
    assert_eq!(cleaner.scan_flags(true), flags(true, true, true));
    let plain = CargoClean::new(false, Vec::new(), false, None);
    assert_eq!(plain.size_units, None);
    assert_eq!(plain.scan_flags(false), flags(false, false, false));
}
