use neocmakelsp::config::Config;
use neocmakelsp::protocol::DocDiagnostic;
use neocmakelsp::session::{initial_cache_refresh, FileChangeKind, Session, WatchedFileAction};

fn no_lint() -> Vec<DocDiagnostic> {
    Vec::new()
}

#[test]
fn diagnostics_follow_the_latest_text() {
    // Open, change, save: the publish after the save reflects the text of
    // the last change, never the opened text.
    let mut s = Session::new();
    let lint = no_lint();
    let p0 = s.on_open("file:///a/CMakeLists.txt", "project(x)", &lint);
    assert_eq!(p0.diagnostics.len(), 0);

    // The changed text has an invocation left unclosed on its line.
    s.on_change("file:///a/CMakeLists.txt", "add_executable(main");
    let (publish, _) = s.on_save("file:///a/CMakeLists.txt", None, &lint);
    let publish = publish.expect("a cached document always gets a publish on save");
    assert_eq!(publish.uri, "file:///a/CMakeLists.txt");
    assert_eq!(publish.diagnostics.len(), 1);
    assert_eq!(publish.diagnostics[0].message, "unclosed command invocation");
    assert_eq!(publish.diagnostics[0].severity, Some(1));
    assert_eq!(publish.diagnostics[0].range.start.line, 0);

    // A further change repairs the text; the next save clears the finding
    // with an empty — not absent — publish.
    s.on_change("file:///a/CMakeLists.txt", "add_executable(main)");
    let (publish2, _) = s.on_save("file:///a/CMakeLists.txt", None, &lint);
    let publish2 = publish2.unwrap();
    assert_eq!(publish2.diagnostics.len(), 0);
}

#[test]
fn clean_document_publishes_empty_set() {
    let mut s = Session::new();
    let lint = no_lint();
    let p = s.on_open("file:///clean.txt", "set(A 1)\nproject(demo)", &lint);
    assert_eq!(p.uri, "file:///clean.txt");
    assert_eq!(p.diagnostics.len(), 0);
}

#[test]
fn reopening_keeps_the_cached_text() {
    let mut s = Session::new();
    let lint = no_lint();
    s.on_open("file:///b", "set(FIRST 1)", &lint);
    s.on_open("file:///b", "set(SECOND 2)", &lint);
    // The cache kept the first text: a save without text republishes it.
    let (publish, _) = s.on_save("file:///b", None, &lint);
    assert!(publish.is_some());
    let all = s.update_diagnostics(&lint);
    assert_eq!(all.len(), 1);
}

#[test]
fn closing_evicts_nothing() {
    let mut s = Session::new();
    let lint = no_lint();
    s.on_open("file:///c", "set(A 1)", &lint);
    s.on_close("file:///c");
    let (publish, _) = s.on_save("file:///c", None, &lint);
    assert!(publish.is_some());
}

#[test]
fn save_with_text_replaces_the_cache() {
    let mut s = Session::new();
    let lint = no_lint();
    s.on_open("file:///d", "fine()", &lint);
    let broken = String::from("broken(");
    let (publish, rescan) = s.on_save("file:///d", Some(&broken), &lint);
    assert_eq!(publish.unwrap().diagnostics.len(), 1);
    // no workspace root is known, so no rescan is owed
    assert!(!rescan);
}

#[test]
fn initialize_records_root_and_owes_a_scan() {
    let mut s = Session::new();
    let config = Config { scan_cmake_in_package: None, semantic_token: None };
    assert!(config.is_scan_cmake_in_package());
    let root = String::from("/work/project");
    let schedule = s.initialize(&config, Some(&root));
    assert!(schedule);
    assert!(s.scan_cmake_in_package);

    let mut s2 = Session::new();
    let config2 = Config { scan_cmake_in_package: Some(false), semantic_token: Some(false) };
    let schedule2 = s2.initialize(&config2, None);
    assert!(!schedule2);
    assert!(!s2.scan_cmake_in_package);
}

#[test]
fn watched_file_changes_are_classified() {
    let mut s = Session::new();
    let config = Config::default();
    let root = String::from("/work");
    s.initialize(&config, Some(&root));
    assert_eq!(
        s.on_watched_file_change("/work/CMakeLists.txt", FileChangeKind::Created),
        WatchedFileAction::RescanWorkspace
    );
    assert_eq!(
        s.on_watched_file_change("/work/build/CMakeCache.txt", FileChangeKind::Deleted),
        WatchedFileAction::ClearErrorPackages
    );
    assert_eq!(
        s.on_watched_file_change("/work/build/CMakeCache.txt", FileChangeKind::Changed),
        WatchedFileAction::RefreshErrorPackages
    );

    let rootless = Session::new();
    assert_eq!(
        rootless.on_watched_file_change("/work/CMakeLists.txt", FileChangeKind::Deleted),
        WatchedFileAction::NoAction
    );
}

#[test]
fn error_package_state_is_replaced_whole() {
    let mut s = Session::new();
    s.refresh_error_packages(vec![String::from("Foo"), String::from("Bar")]);
    assert_eq!(s.error_packages.len(), 2);
    s.clear_error_packages();
    assert_eq!(s.error_packages.len(), 0);
}

#[test]
fn initialization_refresh_needs_full_watch_support() {
    assert!(initial_cache_refresh(Some(true), Some(true), true));
    assert!(!initial_cache_refresh(Some(true), Some(true), false));
    assert!(!initial_cache_refresh(Some(true), None, true));
    assert!(!initial_cache_refresh(None, Some(true), true));
    assert!(!initial_cache_refresh(Some(false), Some(true), true));
}
