use local_sync::clock::Timestamp;
use local_sync::error::SyncError;
use local_sync::manifest::{FileEntry, FileTable, Manifest};
use local_sync::plan::Direction;
use local_sync::pull::{nothing_to_pull, plan_pull, plan_pull_at, MANIFEST_FILE};
use local_sync::push::plan_push_at;

fn s(x: &str) -> String {
    x.to_string()
}

fn paths(xs: &[&str]) -> Vec<String> {
    xs.iter().map(|x| x.to_string()).collect()
}

fn table(files: &[(&str, &str)]) -> FileTable {
    let mut t = FileTable::new();
    for (p, h) in files {
        t.insert(p.to_string(), h.to_string());
    }
    t
}

fn manifest(entries: &[(&str, &str)]) -> Manifest {
    let mut m = Manifest::new();
    for (p, h) in entries {
        m.insert(p.to_string(), FileEntry { hash: h.to_string(), synced_at: T0 });
    }
    m
}

fn hashes(m: &Manifest) -> Vec<(String, String)> {
    let mut out = Vec::new();
    for i in 0..m.len() {
        out.push((m.path_at(i).clone(), m.value_at(i).hash.clone()));
    }
    out
}

const T0: Timestamp = Timestamp { secs: 1_700_000_000, nanos: 0 };
const T1: Timestamp = Timestamp { secs: 1_700_000_100, nanos: 5 };

#[test]
fn manifest_file_has_its_name() {
    assert_eq!(MANIFEST_FILE, ".sync-manifest");
}

#[test]
fn pull_copies_what_is_missing_or_differs_locally() {
    let old = manifest(&[("a", "H1"), ("b", "H2"), ("c", "H3")]);
    let local = table(&[("b", "H2"), ("c", "H3")]);
    let remote = table(&[("a", "H1"), ("b", "H2"), ("c", "H4")]);
    let plan = plan_pull_at(&old, &local, &remote, T1);
    assert_eq!(plan.direction, Direction::Pull);
    assert_eq!(plan.to_copy, paths(&["a", "c"]));
    assert!(plan.to_delete.is_empty());
    assert!(plan.conflicts.is_empty());
    assert_eq!(hashes(&plan.manifest), vec![(s("a"), s("H1")), (s("b"), s("H2")), (s("c"), s("H4"))]);
    assert_eq!(plan.manifest.get(&s("b")).unwrap().synced_at, T1);
}

#[test]
fn pull_deletes_locally_what_vanished_remotely() {
    let old = manifest(&[("a", "H1"), ("b", "H2")]);
    let local = table(&[("a", "H1")]);
    let remote = table(&[]);
    let plan = plan_pull_at(&old, &local, &remote, T1);
    assert_eq!(plan.to_delete, paths(&["a"]));
    assert!(plan.to_copy.is_empty());
    assert_eq!(plan.manifest.len(), 0);
}

#[test]
fn pull_conflict_is_reported_and_declining_aborts() {
    let old = manifest(&[("c", "H1")]);
    let local = table(&[("c", "H2")]);
    let remote = table(&[("c", "H3")]);
    let plan = plan_pull_at(&old, &local, &remote, T1);
    assert_eq!(plan.conflicts, paths(&["c"]));
    assert!(plan.to_copy.is_empty());
    assert_eq!(plan.manifest.len(), 0);
    assert!(plan.needs_confirmation());
    assert!(matches!(plan.resolve(false), Err(SyncError::ConflictAbort)));
}

#[test]
fn pull_conflict_accepted_lets_the_remote_side_win() {
    let old = manifest(&[("c", "H1"), ("d", "H5")]);
    let local = table(&[("c", "H2")]);
    let remote = table(&[("c", "H3"), ("d", "H5")]);
    let approved = plan_pull_at(&old, &local, &remote, T1).resolve(true).unwrap();
    assert_eq!(approved.to_copy(), &paths(&["d", "c"]));
    assert!(approved.to_delete().is_empty());
    assert_eq!(approved.direction(), Direction::Pull);
    assert_eq!(hashes(approved.manifest()), vec![(s("d"), s("H5")), (s("c"), s("H3"))]);
}

#[test]
fn pull_converged_sides_raise_no_conflict_and_no_copy() {
    let old = manifest(&[("d", "H1")]);
    let local = table(&[("d", "H2")]);
    let remote = table(&[("d", "H2")]);
    let plan = plan_pull_at(&old, &local, &remote, T1);
    assert!(plan.conflicts.is_empty());
    assert!(plan.to_copy.is_empty());
    assert_eq!(hashes(&plan.manifest), vec![(s("d"), s("H2"))]);
}

#[test]
fn pull_adopts_unknown_remote_files_only_where_nothing_is_local() {
    let old = manifest(&[("known", "H1")]);
    let local = table(&[("known", "H1"), ("taken", "L")]);
    let remote = table(&[
        ("known", "H1"),
        (".sync-manifest", "M"),
        ("new", "H7"),
        ("taken", "R"),
        ("dir/deep", "H8"),
    ]);
    let plan = plan_pull_at(&old, &local, &remote, T1);
    assert_eq!(plan.to_copy, paths(&["new", "dir/deep"]));
    assert!(plan.conflicts.is_empty());
    assert_eq!(
        hashes(&plan.manifest),
        vec![(s("known"), s("H1")), (s("new"), s("H7")), (s("dir/deep"), s("H8"))]
    );
}

#[test]
fn pull_without_manifest_takes_every_remote_file() {
    let local = table(&[]);
    let remote = table(&[("b", "H2"), ("a", "H1"), (".sync-manifest", "M")]);
    let plan = plan_pull_at(&Manifest::new(), &local, &remote, T0);
    assert_eq!(plan.to_copy, paths(&["b", "a"]));
    assert_eq!(hashes(&plan.manifest), vec![(s("b"), s("H2")), (s("a"), s("H1"))]);
}

#[test]
fn nothing_to_pull_only_without_manifest_and_remote_root() {
    assert!(nothing_to_pull(&Manifest::new(), false));
    assert!(!nothing_to_pull(&Manifest::new(), true));
    assert!(!nothing_to_pull(&manifest(&[("a", "H1")]), false));
    assert!(!nothing_to_pull(&manifest(&[("a", "H1")]), true));
}

#[test]
fn pull_after_push_restores_every_pushed_path() {
    let sync = paths(&["a", "sub/b", "c"]);
    let local = table(&[("a", "H1"), ("sub/b", "H2"), ("c", "H3")]);
    let remote = table(&[("c", "H9")]);
    let old = manifest(&[("c", "H8")]);
    let push = plan_push_at(&sync, &old, &local, &remote, T0).resolve(true).unwrap();
    assert_eq!(push.to_copy(), &paths(&["a", "sub/b", "c"]));
    let mirrored = table(&[("c", "H3"), ("a", "H1"), ("sub/b", "H2")]);
    let fresh = table(&[]);
    let pull = plan_pull_at(push.manifest(), &fresh, &mirrored, T1);
    assert!(pull.conflicts.is_empty());
    assert!(pull.to_delete.is_empty());
    let mut copied = pull.to_copy.clone();
    copied.sort();
    assert_eq!(copied, paths(&["a", "c", "sub/b"]));
    let mut recorded = hashes(&pull.manifest);
    recorded.sort();
    assert_eq!(recorded, vec![(s("a"), s("H1")), (s("c"), s("H3")), (s("sub/b"), s("H2"))]);
}

#[test]
fn pull_by_the_clock_stamps_entries_with_the_present_time() {
    let remote = table(&[("a", "H1")]);
    let plan = plan_pull(&Manifest::new(), &table(&[]), &remote);
    assert_eq!(plan.to_copy, paths(&["a"]));
    assert!(plan.manifest.get(&s("a")).unwrap().synced_at.secs > 1_600_000_000);
}
