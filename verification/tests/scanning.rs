use neocmakelsp::scan::{scan_workspace, ScanScheduler, ScanTask, WorkspaceIndex};
use neocmakelsp::store::TextStore;
use neocmakelsp::utils::{CMakePackage, FileType};

fn pkg(name: &str, tojump: &[&str]) -> CMakePackage {
    CMakePackage {
        name: name.to_string(),
        filetype: FileType::File,
        filepath: format!("/usr/lib/cmake/{}", name),
        version: None,
        tojump: tojump.iter().map(|t| t.to_string()).collect(),
    }
}

fn index_with(names: &[&str]) -> WorkspaceIndex {
    let mut idx = WorkspaceIndex::empty();
    for n in names {
        idx.merge_package(pkg(n, &["/somewhere"]));
    }
    idx
}

#[test]
fn index_reads_are_never_partial() {
    // A reader sees the pre-scan index or the post-scan index in full,
    // never a mix of the two.
    let mut sched = ScanScheduler::new();
    sched.schedule(ScanTask { root: String::from("/w"), result: index_with(&["Foo", "Bar"]) });
    // while the scan is in flight, the reader still sees the old snapshot
    assert_eq!(sched.read_index().packages.len(), 0);
    sched.complete();
    // after completion, the whole new snapshot at once
    let now = sched.read_index();
    assert_eq!(now.packages.len(), 2);
    assert!(now.find_package("Foo").is_some());
    assert!(now.find_package("Bar").is_some());
}

#[test]
fn second_scan_waits_for_the_first() {
    // Scheduling scan B while scan A is in flight: A completes and
    // publishes first; after B completes the index holds exactly B's
    // results.
    let mut sched = ScanScheduler::new();
    sched.schedule(ScanTask { root: String::from("/w"), result: index_with(&["FromA"]) });
    sched.schedule(ScanTask { root: String::from("/w"), result: index_with(&["FromB"]) });
    // A was awaited and published before B started
    assert!(sched.read_index().find_package("FromA").is_some());
    assert!(sched.read_index().find_package("FromB").is_none());
    sched.complete();
    // B's whole result, nothing of A's
    assert!(sched.read_index().find_package("FromB").is_some());
    assert!(sched.read_index().find_package("FromA").is_none());
}

#[test]
fn workspace_walk_follows_existing_subdirectories() {
    let mut fs = TextStore::new();
    fs.put("/r/CMakeLists.txt", "add_subdirectory(sub)\nadd_subdirectory(gone)\nfind_package(Foo)");
    fs.put("/r/sub/CMakeLists.txt", "find_package(Bar)\nfind_package(Unknown)");

    let installed = vec![pkg("Foo", &["/x/FooConfig.cmake"]), pkg("Bar", &["/y/BarConfig.cmake"])];
    let deps: Vec<CMakePackage> = Vec::new();
    let idx = scan_workspace(&fs, "/r/CMakeLists.txt", &installed, &deps, false);

    // only the existing subdirectory became an edge
    assert_eq!(idx.subdirs.len(), 1);
    assert_eq!(idx.subdirs[0].0, "/r/CMakeLists.txt");
    assert_eq!(idx.subdirs[0].1, "/r/sub/CMakeLists.txt");

    // packages of both visited scripts were resolved; unknown ones skipped
    assert!(idx.find_package("Foo").is_some());
    assert!(idx.find_package("Bar").is_some());
    assert!(idx.find_package("Unknown").is_none());
}

#[test]
fn dependency_packages_only_when_asked() {
    let mut fs = TextStore::new();
    fs.put("/r/CMakeLists.txt", "find_package(Bundled)");
    let installed: Vec<CMakePackage> = Vec::new();
    let deps = vec![pkg("Bundled", &["/dep/BundledConfig.cmake"])];

    let without = scan_workspace(&fs, "/r/CMakeLists.txt", &installed, &deps, false);
    assert!(without.find_package("Bundled").is_none());

    let with = scan_workspace(&fs, "/r/CMakeLists.txt", &installed, &deps, true);
    assert!(with.find_package("Bundled").is_some());
}

#[test]
fn rediscovered_package_merges_its_locations() {
    // Multiple discoveries of one name merge their candidate location
    // sets instead of overwriting.
    let mut idx = WorkspaceIndex::empty();
    idx.merge_package(pkg("Foo", &["/x/FooConfig.cmake"]));
    idx.merge_package(pkg("Foo", &["/x/FooConfig.cmake", "/y/FooConfig.cmake"]));
    let record = idx.find_package("Foo").unwrap();
    assert_eq!(record.tojump, vec!["/x/FooConfig.cmake", "/y/FooConfig.cmake"]);
    assert_eq!(idx.packages.len(), 1);
}

#[test]
fn text_store_keeps_one_entry_per_key() {
    let mut store = TextStore::new();
    store.put("k", "one");
    store.put("k", "two");
    assert_eq!(store.len(), 1);
    assert_eq!(store.get("k").unwrap(), "two");
    store.put_if_absent("k", "three");
    assert_eq!(store.get("k").unwrap(), "two");
    assert!(store.get("missing").is_none());
}
