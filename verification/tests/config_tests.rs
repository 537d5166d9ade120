use local_sync::config::{
    find_project_root, get_config, get_config_for_pull, load_config_from_root, PathKind, RootProbe,
    DESCRIPTOR_FILE,
};
use local_sync::edit::{add_path, init_descriptor, remove_path};
use local_sync::error::SyncError;

fn s(x: &str) -> String {
    x.to_string()
}

fn paths(xs: &[&str]) -> Vec<String> {
    xs.iter().map(|x| x.to_string()).collect()
}

fn probe(dir: &str, descriptor: Option<&str>) -> RootProbe {
    RootProbe { dir: dir.to_string(), descriptor: descriptor.map(|d| d.to_string()) }
}

#[test]
fn descriptor_file_has_its_name() {
    assert_eq!(DESCRIPTOR_FILE, ".local-sync");
}

#[test]
fn load_reads_remote_root_and_added_paths() {
    let c = load_config_from_root(s("/work"), Some("/mnt/nas/project\n+secrets.env\n+build\n")).unwrap();
    assert_eq!(c.root, "/work");
    assert_eq!(c.remote_root, "/mnt/nas/project");
    assert_eq!(c.additional_paths, paths(&["secrets.env", "build"]));
}

#[test]
fn load_trims_lines_and_ignores_those_without_a_plus() {
    let text = "  /mnt/nas  \r\n\n# note\n  +a.txt  \nplain\n+\n+ spaced\n";
    let c = load_config_from_root(s("/w"), Some(text)).unwrap();
    assert_eq!(c.remote_root, "/mnt/nas");
    assert_eq!(c.additional_paths, paths(&["a.txt", "", " spaced"]));
}

#[test]
fn load_of_a_single_line_without_line_feed() {
    let c = load_config_from_root(s("/w"), Some("/mnt/nas")).unwrap();
    assert_eq!(c.remote_root, "/mnt/nas");
    assert!(c.additional_paths.is_empty());
}

#[test]
fn load_takes_a_plus_on_the_first_line_as_the_remote_root() {
    let c = load_config_from_root(s("/w"), Some("+odd\n+a\n")).unwrap();
    assert_eq!(c.remote_root, "+odd");
    assert_eq!(c.additional_paths, paths(&["a"]));
}

#[test]
fn load_without_descriptor_is_config_missing() {
    assert!(matches!(load_config_from_root(s("/w"), None), Err(SyncError::ConfigMissing)));
}

#[test]
fn load_of_an_empty_descriptor_is_config_malformed() {
    assert!(matches!(load_config_from_root(s("/w"), Some("")), Err(SyncError::ConfigMalformed)));
    assert!(matches!(load_config_from_root(s("/w"), Some("   \n+a\n")), Err(SyncError::ConfigMalformed)));
    assert!(matches!(load_config_from_root(s("/w"), Some("\n/mnt/nas\n")), Err(SyncError::ConfigMalformed)));
}

#[test]
fn get_config_loads_from_the_repository_root() {
    let c = get_config(s("/repo"), Some("/nas\n+x\n")).unwrap();
    assert_eq!(c.root, "/repo");
    assert_eq!(c.remote_root, "/nas");
    assert_eq!(c.additional_paths, paths(&["x"]));
    assert!(matches!(get_config(s("/repo"), None), Err(SyncError::ConfigMissing)));
    assert!(matches!(get_config(s("/repo"), Some("\n")), Err(SyncError::ConfigMalformed)));
}

#[test]
fn project_root_is_the_nearest_directory_with_a_descriptor() {
    let probes = vec![
        probe("/a/b/c", None),
        probe("/a/b", Some("/nas/near\n")),
        probe("/a", Some("/nas/far\n")),
        probe("/", None),
    ];
    assert_eq!(find_project_root(&probes), Some(1));
    let c = get_config_for_pull(&probes).unwrap();
    assert_eq!(c.root, "/a/b");
    assert_eq!(c.remote_root, "/nas/near");
}

#[test]
fn project_root_is_missing_without_any_descriptor() {
    let probes = vec![probe("/a/b", None), probe("/a", None), probe("/", None)];
    assert_eq!(find_project_root(&probes), None);
    assert!(matches!(get_config_for_pull(&probes), Err(SyncError::ConfigMissing)));
    assert_eq!(find_project_root(&Vec::new()), None);
    assert!(matches!(get_config_for_pull(&Vec::new()), Err(SyncError::ConfigMissing)));
}

#[test]
fn pull_config_from_a_malformed_descriptor_is_an_error() {
    let probes = vec![probe("/a/b", Some("  \n")), probe("/a", Some("/nas\n"))];
    assert!(matches!(get_config_for_pull(&probes), Err(SyncError::ConfigMalformed)));
}

#[test]
fn init_writes_the_remote_root_on_a_line_of_its_own() {
    assert_eq!(init_descriptor("/mnt/nas/project", false).unwrap(), "/mnt/nas/project\n");
}

#[test]
fn init_refuses_an_existing_descriptor() {
    assert!(matches!(init_descriptor("/mnt/nas", true), Err(SyncError::AlreadyInitialized)));
}

#[test]
fn add_appends_an_entry() {
    let out = add_path(Some("/nas\n"), &s("secrets.env"), PathKind::File, &paths(&["a.rs"])).unwrap();
    assert_eq!(out, "/nas\n+secrets.env\n");
    let out = add_path(Some(&out), &s("build"), PathKind::Directory, &paths(&[])).unwrap();
    assert_eq!(out, "/nas\n+secrets.env\n+build\n");
}

#[test]
fn add_drops_trailing_white_space_before_the_entry() {
    let out = add_path(Some("/nas\n+a\n\n  \n"), &s("b"), PathKind::Other, &paths(&[])).unwrap();
    assert_eq!(out, "/nas\n+a\n+b\n");
    let out = add_path(Some("/nas"), &s("b"), PathKind::File, &paths(&[])).unwrap();
    assert_eq!(out, "/nas\n+b\n");
}

#[test]
fn add_without_descriptor_is_config_missing() {
    assert!(matches!(add_path(None, &s("a"), PathKind::File, &paths(&[])), Err(SyncError::ConfigMissing)));
}

#[test]
fn add_of_a_missing_path_is_path_not_found() {
    assert!(matches!(
        add_path(Some("/nas\n"), &s("a"), PathKind::Missing, &paths(&[])),
        Err(SyncError::PathNotFound)
    ));
}

#[test]
fn add_of_a_file_under_version_control_is_already_tracked() {
    assert!(matches!(
        add_path(Some("/nas\n"), &s("a.rs"), PathKind::File, &paths(&["a.rs"])),
        Err(SyncError::AlreadyTracked)
    ));
}

#[test]
fn add_of_a_directory_is_not_checked_against_version_control() {
    let out = add_path(Some("/nas\n"), &s("dir"), PathKind::Directory, &paths(&["dir"])).unwrap();
    assert_eq!(out, "/nas\n+dir\n");
}

#[test]
fn add_of_a_listed_path_is_already_tracked() {
    assert!(matches!(
        add_path(Some("/nas\n+a\n  +b  \n"), &s("b"), PathKind::File, &paths(&[])),
        Err(SyncError::AlreadyTracked)
    ));
}

#[test]
fn add_does_not_look_for_the_entry_on_the_first_line() {
    let out = add_path(Some("+a\n"), &s("a"), PathKind::File, &paths(&[])).unwrap();
    assert_eq!(out, "+a\n+a\n");
}

#[test]
fn add_to_an_empty_descriptor_is_config_malformed() {
    assert!(matches!(
        add_path(Some(""), &s("a"), PathKind::File, &paths(&[])),
        Err(SyncError::ConfigMalformed)
    ));
}

#[test]
fn remove_takes_the_entry_out() {
    let out = remove_path(Some("/nas\n+a\n+b\n"), &s("a"), &paths(&[])).unwrap();
    assert_eq!(out, "/nas\n+b\n");
    let out = remove_path(Some(&out), &s("b"), &paths(&[])).unwrap();
    assert_eq!(out, "/nas\n");
}

#[test]
fn remove_takes_every_matching_line_and_keeps_the_others_as_they_are() {
    let out = remove_path(Some("/nas \r\n  +a \n\n+b\n+a"), &s("a"), &paths(&[])).unwrap();
    assert_eq!(out, "/nas \n\n+b\n");
}

#[test]
fn remove_of_the_only_line_leaves_a_line_feed() {
    assert_eq!(remove_path(Some("+a\n"), &s("a"), &paths(&[])).unwrap(), "\n");
}

#[test]
fn remove_without_descriptor_is_config_missing() {
    assert!(matches!(remove_path(None, &s("a"), &paths(&[])), Err(SyncError::ConfigMissing)));
}

#[test]
fn remove_of_a_path_under_version_control_is_not_tracked() {
    assert!(matches!(
        remove_path(Some("/nas\n+a\n"), &s("a"), &paths(&["a"])),
        Err(SyncError::NotTracked)
    ));
}

#[test]
fn remove_of_an_unlisted_path_is_not_tracked() {
    assert!(matches!(remove_path(Some("/nas\n+a\n"), &s("b"), &paths(&[])), Err(SyncError::NotTracked)));
    assert!(matches!(remove_path(Some(""), &s("b"), &paths(&[])), Err(SyncError::NotTracked)));
}

#[test]
fn added_path_is_loaded_and_removed_path_is_not() {
    let text = init_descriptor("/nas", false).unwrap();
    let text = add_path(Some(&text), &s("x/y"), PathKind::File, &paths(&[])).unwrap();
    let c = load_config_from_root(s("/w"), Some(&text)).unwrap();
    assert_eq!(c.remote_root, "/nas");
    assert_eq!(c.additional_paths, paths(&["x/y"]));
    let text = remove_path(Some(&text), &s("x/y"), &paths(&[])).unwrap();
    let c = load_config_from_root(s("/w"), Some(&text)).unwrap();
    assert!(c.additional_paths.is_empty());
}
