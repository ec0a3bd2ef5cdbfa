use luna_installer::fs_model::Fs;
use luna_installer::paths::{AppPath, dedup_paths};
use luna_installer::resolver::{
    DiscoverError, Platform, find_resources_in_app_versions, find_tidal_directories,
    get_tidal_directory, has_tidal_app_asar, is_luna_installed, is_tidal_resources_directory,
    normalize_tidal_resources_path, resolve_resources_dir, first_existing_path,
};

fn path(parts: &[&str]) -> AppPath {
    AppPath::from_parts(parts.iter().map(|s| s.to_string()).collect())
}

fn parts_of(p: &AppPath) -> Vec<String> {
    p.parts.clone()
}

fn target_with_app_asar(parts: &[&str]) -> Fs {
    let mut fs = Fs::new();
    let t = path(parts);
    fs.make_dir_all(&t);
    fs.write_file(&t.join("app.asar"), b"payload".to_vec());
    fs
}

#[test]
fn normalize_app_asar_returns_parent() {
    let fs = Fs::new();
    let input = path(&["home", "me", "resources", "app.asar"]);
    let out = normalize_tidal_resources_path(&fs, input);
    assert_eq!(parts_of(&out), vec!["home", "me", "resources"]);
}

#[test]
fn normalize_original_asar_returns_parent_case_insensitive() {
    let fs = Fs::new();
    let input = path(&["deep", "Original.ASAR"]);
    let out = normalize_tidal_resources_path(&fs, input);
    assert_eq!(parts_of(&out), vec!["deep"]);
}

#[test]
fn normalize_resources_is_identity() {
    let fs = Fs::new();
    let input = path(&["opt", "tidal", "Resources"]);
    let out = normalize_tidal_resources_path(&fs, input);
    assert_eq!(parts_of(&out), vec!["opt", "tidal", "Resources"]);
}

#[test]
fn normalize_contents_appends_resources() {
    let fs = Fs::new();
    let input = path(&["Applications", "TIDAL.app", "Contents"]);
    let out = normalize_tidal_resources_path(&fs, input);
    assert_eq!(parts_of(&out), vec!["Applications", "TIDAL.app", "Contents", "Resources"]);
}

#[test]
fn normalize_app_bundle_appends_contents_resources() {
    let fs = Fs::new();
    let input = path(&["Applications", "TIDAL.app"]);
    let out = normalize_tidal_resources_path(&fs, input);
    assert_eq!(parts_of(&out), vec!["Applications", "TIDAL.app", "Contents", "Resources"]);
}

#[test]
fn normalize_probes_existing_resources_child() {
    let mut fs = Fs::new();
    fs.make_dir_all(&path(&["base", "Resources"]));
    let out = normalize_tidal_resources_path(&fs, path(&["base"]));
    assert_eq!(parts_of(&out), vec!["base", "Resources"]);
}

#[test]
fn normalize_falls_back_to_lowercase_resources() {
    let fs = Fs::new();
    let out = normalize_tidal_resources_path(&fs, path(&["nowhere"]));
    assert_eq!(parts_of(&out), vec!["nowhere", "resources"]);
}

#[test]
fn normalize_selects_highest_version_among_siblings() {
    let mut fs = Fs::new();
    for v in ["app-1.2.0", "app-1.10.0", "app-1.9.9"] {
        let res = path(&["parent", v, "resources"]);
        fs.make_dir_all(&res);
        fs.write_file(&res.join("app.asar"), b"x".to_vec());
    }
    let out = normalize_tidal_resources_path(&fs, path(&["parent"]));
    assert_eq!(parts_of(&out), vec!["parent", "app-1.10.0", "resources"]);
}

#[test]
fn find_resources_prefers_release_over_prerelease() {
    let mut fs = Fs::new();
    for v in ["app-2.0.0-beta.1", "app-2.0.0"] {
        let res = path(&["p", v, "resources"]);
        fs.make_dir_all(&res);
        fs.write_file(&res.join("app.asar"), b"x".to_vec());
    }
    let out = find_resources_in_app_versions(&fs, &path(&["p"])).unwrap();
    assert_eq!(parts_of(&out), vec!["p", "app-2.0.0", "resources"]);
}

#[test]
fn find_resources_ignores_unversioned_children() {
    let mut fs = Fs::new();
    let res = path(&["p", "app-not-a-version", "resources"]);
    fs.make_dir_all(&res);
    fs.write_file(&res.join("app.asar"), b"x".to_vec());
    assert!(find_resources_in_app_versions(&fs, &path(&["p"])).is_none());
}

#[test]
fn validity_predicate_accepts_each_marker() {
    let mut with_app_asar = Fs::new();
    with_app_asar.make_dir_all(&path(&["t"]));
    with_app_asar.write_file(&path(&["t", "app.asar"]), vec![1]);
    assert!(is_tidal_resources_directory(&with_app_asar, &path(&["t"])));

    let mut with_backup = Fs::new();
    with_backup.make_dir_all(&path(&["t"]));
    with_backup.write_file(&path(&["t", "original.asar"]), vec![1]);
    assert!(is_tidal_resources_directory(&with_backup, &path(&["t"])));

    let mut with_tree = Fs::new();
    with_tree.make_dir_all(&path(&["t", "app"]));
    assert!(is_tidal_resources_directory(&with_tree, &path(&["t"])));

    let mut bare = Fs::new();
    bare.make_dir_all(&path(&["t"]));
    assert!(!is_tidal_resources_directory(&bare, &path(&["t"])));
    assert!(!is_tidal_resources_directory(&Fs::new(), &AppPath::empty()));
}

#[test]
fn has_tidal_app_asar_needs_a_file() {
    let mut fs = Fs::new();
    fs.make_dir_all(&path(&["t", "app.asar"]));
    assert!(!has_tidal_app_asar(&fs, &path(&["t"])));
    let fs2 = target_with_app_asar(&["t"]);
    assert!(has_tidal_app_asar(&fs2, &path(&["t"])));
}

#[test]
fn first_existing_path_returns_earliest_hit() {
    let mut fs = Fs::new();
    fs.make_dir_all(&path(&["b"]));
    fs.make_dir_all(&path(&["c"]));
    let candidates = vec![path(&["a"]), path(&["b"]), path(&["c"])];
    let hit = first_existing_path(&fs, &candidates).unwrap();
    assert_eq!(parts_of(&hit), vec!["b"]);
    assert!(first_existing_path(&Fs::new(), &candidates).is_none());
}

#[test]
fn resolve_resources_dir_prefers_lowercase() {
    let mut fs = Fs::new();
    let lower = path(&["b", "resources"]);
    let upper = path(&["b", "Resources"]);
    fs.make_dir_all(&lower);
    fs.write_file(&lower.join("app.asar"), vec![1]);
    fs.make_dir_all(&upper);
    fs.write_file(&upper.join("app.asar"), vec![1]);
    let out = resolve_resources_dir(&fs, &path(&["b"])).unwrap();
    assert_eq!(parts_of(&out), vec!["b", "resources"]);
}

#[test]
fn dedup_paths_keeps_first_occurrences() {
    let v = vec![path(&["a"]), path(&["b"]), path(&["a"]), path(&["c"]), path(&["b"])];
    let d = dedup_paths(v);
    let names: Vec<Vec<String>> = d.iter().map(parts_of).collect();
    assert_eq!(names, vec![vec!["a"], vec!["b"], vec!["c"]]);
}

#[test]
fn discover_on_linux_finds_wellknown_location() {
    let fs = target_with_app_asar(&["opt", "tidal-hifi", "resources"]);
    let found = find_tidal_directories(&fs, Platform::Linux, None, None).unwrap();
    assert_eq!(found.len(), 1);
    assert_eq!(parts_of(&found[0]), vec!["opt", "tidal-hifi", "resources"]);
}

#[test]
fn discover_on_linux_probes_home_flatpak() {
    let fs = target_with_app_asar(&[
        "home", "me", ".local", "share", "flatpak", "app", "com.mastermindzh.tidal-hifi",
        "current", "active", "files", "lib", "tidal-hifi", "resources",
    ]);
    let home = path(&["home", "me"]);
    let found = find_tidal_directories(&fs, Platform::Linux, Some(&home), None).unwrap();
    assert_eq!(found.len(), 1);
}

#[test]
fn discover_on_macos_resolves_bundles() {
    let fs = target_with_app_asar(&["Applications", "TIDAL.app", "Contents", "Resources"]);
    let found = find_tidal_directories(&fs, Platform::MacOs, None, None).unwrap();
    assert_eq!(found.len(), 1);
    assert_eq!(
        parts_of(&found[0]),
        vec!["Applications", "TIDAL.app", "Contents", "Resources"]
    );
}

#[test]
fn discover_on_windows_selects_highest_version() {
    let mut fs = Fs::new();
    for v in ["app-1.2.0", "app-1.10.0", "app-1.9.9"] {
        let res = path(&["Users", "me", "AppData", "Local", "TIDAL", v, "resources"]);
        fs.make_dir_all(&res);
        fs.write_file(&res.join("app.asar"), b"x".to_vec());
    }
    let la = path(&["Users", "me", "AppData", "Local"]);
    let found = find_tidal_directories(&fs, Platform::Windows, None, Some(&la)).unwrap();
    assert_eq!(found.len(), 1);
    assert_eq!(
        parts_of(&found[0]),
        vec!["Users", "me", "AppData", "Local", "TIDAL", "app-1.10.0", "resources"]
    );
}

#[test]
fn discover_reports_not_found_and_unsupported() {
    let empty = Fs::new();
    assert!(matches!(
        find_tidal_directories(&empty, Platform::Linux, None, None),
        Err(DiscoverError::NotFound)
    ));
    assert!(matches!(
        find_tidal_directories(&empty, Platform::Other, None, None),
        Err(DiscoverError::Unsupported)
    ));
    assert!(matches!(
        get_tidal_directory(&empty, Platform::Other, None, None),
        Err(DiscoverError::Unsupported)
    ));
}

#[test]
fn path_operations_behave() {
    let p = path(&["a", "b", "c"]);
    assert_eq!(p.len(), 3);
    assert_eq!(p.file_name().unwrap(), "c");
    assert_eq!(parts_of(&p.parent().unwrap()), vec!["a", "b"]);
    assert!(p.starts_with(&path(&["a", "b"])));
    assert!(!p.starts_with(&path(&["a", "c"])));
    assert!(p.path_eq(&path(&["a", "b", "c"])));
    assert!(!p.path_eq(&path(&["a", "b"])));
    assert!(AppPath::empty().parent().is_none());
}

#[test]
fn get_tidal_directory_returns_first_discovered_target() {
    let mut fs = Fs::new();
    for loc in [["opt", "tidal-hifi", "resources"], ["opt", "TIDAL", "resources"]] {
        let t = path(&loc);
        fs.make_dir_all(&t);
        fs.write_file(&t.join("app.asar"), vec![1]);
    }
    let first = get_tidal_directory(&fs, Platform::Linux, None, None).unwrap();
    assert_eq!(parts_of(&first), vec!["opt", "tidal-hifi", "resources"]);
    assert!(matches!(
        get_tidal_directory(&Fs::new(), Platform::Linux, None, None),
        Err(DiscoverError::NotFound)
    ));
}

#[test]
fn is_luna_installed_reads_the_injected_tree_signal() {
    let mut fs = Fs::new();
    let t = path(&["opt", "tidal-hifi", "resources"]);
    fs.make_dir_all(&t);
    fs.write_file(&t.join("app.asar"), vec![1]);
    assert_eq!(is_luna_installed(&fs, Platform::Linux, None, None), Ok(false));
    fs.make_dir_all(&t.join("app"));
    assert_eq!(is_luna_installed(&fs, Platform::Linux, None, None), Ok(true));
    assert_eq!(is_luna_installed(&Fs::new(), Platform::Linux, None, None), Ok(false));
    assert_eq!(
        is_luna_installed(&Fs::new(), Platform::Other, None, None),
        Err(DiscoverError::Unsupported)
    );
}
