use local_sync::clock::Timestamp;
use local_sync::error::SyncError;
use local_sync::executor::{Outcome, Phase, Run, Step};
use local_sync::manifest::{FileEntry, FileTable, Manifest};
use local_sync::plan::{ApprovedPlan, Direction};
use local_sync::push::{plan_push, plan_push_at};
use std::collections::BTreeMap;

type Disk = BTreeMap<String, String>;

fn s(x: &str) -> String {
    x.to_string()
}

fn paths(xs: &[&str]) -> Vec<String> {
    xs.iter().map(|x| x.to_string()).collect()
}

fn disk(files: &[(&str, &str)]) -> Disk {
    files.iter().map(|(p, h)| (p.to_string(), h.to_string())).collect()
}

fn table(d: &Disk) -> FileTable {
    let mut t = FileTable::new();
    for (p, h) in d {
        t.insert(p.clone(), h.clone());
    }
    t
}

fn manifest(entries: &[(&str, &str)]) -> Manifest {
    let mut m = Manifest::new();
    for (p, h) in entries {
        m.insert(p.to_string(), FileEntry { hash: h.to_string(), synced_at: T0 });
    }
    m
}

fn hashes(m: &Manifest) -> Vec<(String, String)> {
    let mut out = Vec::new();
    for i in 0..m.len() {
        out.push((m.path_at(i).clone(), m.value_at(i).hash.clone()));
    }
    out.sort();
    out
}

fn copy_of(m: &Manifest) -> Manifest {
    let mut out = Manifest::new();
    for i in 0..m.len() {
        let e = m.value_at(i);
        out.insert(m.path_at(i).clone(), FileEntry { hash: e.hash.clone(), synced_at: e.synced_at });
    }
    out
}

const T0: Timestamp = Timestamp { secs: 1_700_000_000, nanos: 0 };
const T1: Timestamp = Timestamp { secs: 1_700_000_100, nanos: 5 };

/// Carries a plan out on in-memory sides; returns the manifest that was
/// saved, and how many files were copied and deleted.
fn execute(plan: ApprovedPlan, source: &Disk, target: &mut Disk) -> (Manifest, usize, usize) {
    let mut run = Run::start(plan);
    let mut saved = None;
    loop {
        match run.step() {
            Step::Copy(p) => {
                target.insert(p.clone(), source[&p].clone());
                run = run.record(Outcome::Done);
            }
            Step::Delete(p) => {
                assert!(target.remove(&p).is_some());
                run = run.record(Outcome::Done);
            }
            Step::Sweep(_) => {
                run = run.record(Outcome::Kept);
            }
            Step::Save => {
                saved = Some(copy_of(run.manifest()));
                run = run.record(Outcome::Done);
            }
            Step::Finish => break,
            Step::Halt => panic!("the run was called off"),
        }
    }
    assert_eq!(run.phase(), Phase::Finished);
    (saved.unwrap(), run.copied(), run.deleted())
}

#[test]
fn first_push_copies_the_file_and_records_it() {
    let local = disk(&[("a.txt", "H1")]);
    let mut remote = disk(&[]);
    let plan = plan_push_at(&paths(&["a.txt"]), &Manifest::new(), &table(&local), &table(&remote), T0);
    assert_eq!(plan.direction, Direction::Push);
    assert_eq!(plan.to_copy, paths(&["a.txt"]));
    assert!(plan.to_delete.is_empty());
    assert!(plan.conflicts.is_empty());
    assert!(!plan.needs_confirmation());
    let approved = plan.resolve(false).unwrap();
    let (saved, copied, deleted) = execute(approved, &local, &mut remote);
    assert_eq!(remote, disk(&[("a.txt", "H1")]));
    assert_eq!(hashes(&saved), vec![(s("a.txt"), s("H1"))]);
    assert_eq!(saved.get(&s("a.txt")).unwrap().synced_at, T0);
    assert_eq!((copied, deleted), (1, 0));
}

#[test]
fn local_change_alone_is_copied_without_conflict() {
    let local = disk(&[("b.txt", "H2")]);
    let mut remote = disk(&[("b.txt", "H1")]);
    let old = manifest(&[("b.txt", "H1")]);
    let plan = plan_push_at(&paths(&["b.txt"]), &old, &table(&local), &table(&remote), T1);
    assert!(plan.conflicts.is_empty());
    assert_eq!(plan.to_copy, paths(&["b.txt"]));
    let (saved, copied, deleted) = execute(plan.resolve(false).unwrap(), &local, &mut remote);
    assert_eq!(remote, disk(&[("b.txt", "H2")]));
    assert_eq!(hashes(&saved), vec![(s("b.txt"), s("H2"))]);
    assert_eq!(saved.get(&s("b.txt")).unwrap().synced_at, T1);
    assert_eq!((copied, deleted), (1, 0));
}

#[test]
fn conflict_is_reported_and_declining_changes_nothing() {
    let local = disk(&[("c.txt", "H2")]);
    let remote = disk(&[("c.txt", "H3")]);
    let old = manifest(&[("c.txt", "H1")]);
    let plan = plan_push_at(&paths(&["c.txt"]), &old, &table(&local), &table(&remote), T1);
    assert_eq!(plan.conflicts, paths(&["c.txt"]));
    assert!(plan.to_copy.is_empty());
    assert!(plan.to_delete.is_empty());
    assert_eq!(plan.manifest.len(), 0);
    assert!(plan.needs_confirmation());
    match plan.resolve(false) {
        Err(e) => assert_eq!(e, SyncError::ConflictAbort),
        Ok(_) => panic!("a declined plan was approved"),
    }
    assert_eq!(remote, disk(&[("c.txt", "H3")]));
}

#[test]
fn conflict_accepted_lets_the_local_side_win() {
    let local = disk(&[("c.txt", "H2")]);
    let mut remote = disk(&[("c.txt", "H3")]);
    let old = manifest(&[("c.txt", "H1")]);
    let plan = plan_push_at(&paths(&["c.txt"]), &old, &table(&local), &table(&remote), T1);
    let approved = plan.resolve(true).unwrap();
    assert_eq!(approved.to_copy(), &paths(&["c.txt"]));
    let (saved, copied, deleted) = execute(approved, &local, &mut remote);
    assert_eq!(remote, disk(&[("c.txt", "H2")]));
    assert_eq!(hashes(&saved), vec![(s("c.txt"), s("H2"))]);
    assert_eq!((copied, deleted), (1, 0));
}

#[test]
fn second_push_without_changes_does_nothing() {
    let local = disk(&[("a", "H1"), ("b", "H2"), ("c", "H3")]);
    let mut remote = disk(&[("b", "H0"), ("c", "H9"), ("old", "H7")]);
    let old = manifest(&[("b", "H0"), ("c", "H8"), ("old", "H7")]);
    let sync = paths(&["a", "b", "c", "gone"]);
    let first = plan_push_at(&sync, &old, &table(&local), &table(&remote), T0);
    assert_eq!(first.to_copy, paths(&["a", "b"]));
    assert_eq!(first.conflicts, paths(&["c"]));
    assert_eq!(first.to_delete, paths(&["old"]));
    let (saved, copied, deleted) = execute(first.resolve(true).unwrap(), &local, &mut remote);
    assert_eq!((copied, deleted), (3, 1));
    assert_eq!(remote, local);
    let second = plan_push_at(&sync, &saved, &table(&local), &table(&remote), T1);
    assert!(second.to_copy.is_empty());
    assert!(second.to_delete.is_empty());
    assert!(second.conflicts.is_empty());
    assert_eq!(hashes(&second.manifest), hashes(&saved));
    let before = remote.clone();
    let (again, copied, deleted) = execute(second.resolve(false).unwrap(), &local, &mut remote);
    assert_eq!((copied, deleted), (0, 0));
    assert_eq!(remote, before);
    assert_eq!(hashes(&again), hashes(&saved));
}

#[test]
fn converged_sides_raise_no_conflict_and_no_copy() {
    let local = disk(&[("d", "H2")]);
    let remote = disk(&[("d", "H2")]);
    let old = manifest(&[("d", "H1")]);
    let plan = plan_push_at(&paths(&["d"]), &old, &table(&local), &table(&remote), T1);
    assert!(plan.conflicts.is_empty());
    assert!(plan.to_copy.is_empty());
    assert_eq!(hashes(&plan.manifest), vec![(s("d"), s("H2"))]);
}

#[test]
fn path_removed_from_the_sync_set_is_deleted_remotely() {
    let local = disk(&[("keep", "H1"), ("dropped", "H2")]);
    let mut remote = disk(&[("keep", "H1"), ("dropped", "H2")]);
    let old = manifest(&[("keep", "H1"), ("dropped", "H2")]);
    let plan = plan_push_at(&paths(&["keep"]), &old, &table(&local), &table(&remote), T1);
    assert_eq!(plan.to_delete, paths(&["dropped"]));
    assert!(plan.to_copy.is_empty());
    let (saved, copied, deleted) = execute(plan.resolve(false).unwrap(), &local, &mut remote);
    assert_eq!((copied, deleted), (0, 1));
    assert_eq!(remote, disk(&[("keep", "H1")]));
    assert_eq!(hashes(&saved), vec![(s("keep"), s("H1"))]);
}

#[test]
fn path_gone_from_both_is_not_deleted_again() {
    let local = disk(&[]);
    let remote = disk(&[]);
    let old = manifest(&[("gone", "H1")]);
    let plan = plan_push_at(&paths(&[]), &old, &table(&local), &table(&remote), T1);
    assert!(plan.to_delete.is_empty());
    assert_eq!(plan.manifest.len(), 0);
}

#[test]
fn path_missing_locally_is_skipped() {
    let local = disk(&[]);
    let remote = disk(&[("x", "H1")]);
    let old = manifest(&[("x", "H1")]);
    let plan = plan_push_at(&paths(&["x"]), &old, &table(&local), &table(&remote), T1);
    assert!(plan.to_copy.is_empty());
    assert!(plan.to_delete.is_empty());
    assert!(plan.conflicts.is_empty());
    assert_eq!(plan.manifest.len(), 0);
}

#[test]
fn without_manifest_the_local_side_overwrites() {
    let local = disk(&[("a", "H1"), ("b", "H2")]);
    let remote = disk(&[("a", "H9"), ("b", "H2")]);
    let plan = plan_push_at(&paths(&["a", "b"]), &Manifest::new(), &table(&local), &table(&remote), T0);
    assert!(plan.conflicts.is_empty());
    assert_eq!(plan.to_copy, paths(&["a"]));
    assert_eq!(hashes(&plan.manifest), vec![(s("a"), s("H1")), (s("b"), s("H2"))]);
}

#[test]
fn copies_follow_the_order_of_the_sync_set() {
    let local = disk(&[("a", "1"), ("b", "2"), ("c", "3")]);
    let remote = disk(&[]);
    let plan = plan_push_at(&paths(&["c", "a", "b"]), &Manifest::new(), &table(&local), &table(&remote), T0);
    assert_eq!(plan.to_copy, paths(&["c", "a", "b"]));
    assert_eq!(plan.manifest.path_at(0), "c");
    assert_eq!(plan.manifest.path_at(2), "b");
}

#[test]
fn accepted_conflicts_are_copied_after_the_other_paths() {
    let local = disk(&[("c", "H2"), ("n", "H5")]);
    let remote = disk(&[("c", "H3")]);
    let old = manifest(&[("c", "H1")]);
    let plan = plan_push_at(&paths(&["c", "n"]), &old, &table(&local), &table(&remote), T1);
    let approved = plan.resolve(true).unwrap();
    assert_eq!(approved.to_copy(), &paths(&["n", "c"]));
    assert_eq!(approved.direction(), Direction::Push);
    assert_eq!(hashes(approved.manifest()), vec![(s("c"), s("H2")), (s("n"), s("H5"))]);
}

#[test]
fn push_by_the_clock_stamps_entries_with_the_present_time() {
    let local = disk(&[("a", "H1")]);
    let remote = disk(&[]);
    let plan = plan_push(&paths(&["a"]), &Manifest::new(), &table(&local), &table(&remote));
    assert_eq!(plan.to_copy, paths(&["a"]));
    let stamp = plan.manifest.get(&s("a")).unwrap().synced_at;
    assert!(stamp.secs > 1_600_000_000);
    assert!(stamp.nanos < 2_000_000_000);
}
