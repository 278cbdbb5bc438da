use neocmakelsp::jump::{cmpfindpackage, cmpsubdirectory, filter_self_links, subdirectory_script_path};
use neocmakelsp::protocol::{CompletionEntry, CompletionKind, InsertFormat};
use neocmakelsp::protocol::{DocLocation, DocPosition, DocRange};
use neocmakelsp::resolver::{
    classify_position, doc_for_word, document_symbols, find_local_definition, find_references,
    get_cmake_doc, position_token_range, JumpKind,
};
use neocmakelsp::scan::WorkspaceIndex;
use neocmakelsp::utils::{CMakePackage, FileType};

fn lines(src: &[&str]) -> Vec<String> {
    src.iter().map(|s| s.to_string()).collect()
}

fn foo_index() -> WorkspaceIndex {
    let mut idx = WorkspaceIndex::empty();
    idx.merge_package(CMakePackage {
        name: String::from("Foo"),
        filetype: FileType::Dir,
        filepath: String::from("/x"),
        version: None,
        tojump: vec![String::from("/x/FooConfig.cmake"), String::from("/y/FooConfig.cmake")],
    });
    idx
}

#[test]
fn package_reference_yields_one_location_per_candidate() {
    let idx = foo_index();
    let locations = cmpfindpackage("Foo", &idx).expect("Foo is indexed");
    assert_eq!(locations.len(), 2);
    assert_eq!(locations[0].uri, "/x/FooConfig.cmake");
    assert_eq!(locations[1].uri, "/y/FooConfig.cmake");
    for l in &locations {
        assert_eq!(l.range.start.line, 0);
        assert_eq!(l.range.start.character, 0);
        assert_eq!(l.range.end.line, 0);
        assert_eq!(l.range.end.character, 0);
    }
    assert!(cmpfindpackage("Missing", &idx).is_none());
}

#[test]
fn subdirectory_reference_resolves_iff_the_script_exists() {
    let target = subdirectory_script_path("/a/CMakeLists.txt", "sub");
    assert_eq!(target, "/a/sub/CMakeLists.txt");

    let hit = cmpsubdirectory("/a/CMakeLists.txt", "sub", true).expect("target exists");
    assert_eq!(hit.len(), 1);
    assert_eq!(hit[0].uri, "/a/sub/CMakeLists.txt");
    assert_eq!(hit[0].range.start.line, 0);
    assert_eq!(hit[0].range.start.character, 0);

    assert!(cmpsubdirectory("/a/CMakeLists.txt", "sub", false).is_none());
}

#[test]
fn definition_mode_excludes_the_requesting_selection() {
    let origin = DocRange {
        start: DocPosition { line: 3, character: 4 },
        end: DocPosition { line: 3, character: 9 },
    };
    let other = DocRange {
        start: DocPosition { line: 1, character: 0 },
        end: DocPosition { line: 1, character: 5 },
    };
    let locations = vec![
        DocLocation { uri: String::from("/p"), range: other },
        DocLocation { uri: String::from("/p"), range: origin },
    ];

    // definition mode: the result pointing back at the selection is gone
    let definition = filter_self_links(&locations, Some(origin));
    assert_eq!(definition.len(), 1);
    assert_eq!(definition[0].target_range, other);

    // references mode keeps every location, the self-reference included
    let references = filter_self_links(&locations, None);
    assert_eq!(references.len(), 2);
    assert!(references.iter().any(|l| l.target_range == origin));
    // and the definition results are a subset of the reference results
    for d in &definition {
        assert!(references.iter().any(|r| r.target_range == d.target_range));
    }
}

#[test]
fn cursor_classification_follows_the_enclosing_invocation() {
    let doc = lines(&["find_package(Qt5)", "add_subdirectory(sub)", "set(MY_VAR 1)"]);
    match classify_position(&doc, DocPosition { line: 0, character: 14 }) {
        JumpKind::PackageRef(t) => assert_eq!(t, "Qt5"),
        _ => panic!("expected a package reference"),
    }
    match classify_position(&doc, DocPosition { line: 1, character: 18 }) {
        JumpKind::SubdirRef(t) => assert_eq!(t, "sub"),
        _ => panic!("expected a subdirectory reference"),
    }
    match classify_position(&doc, DocPosition { line: 2, character: 5 }) {
        JumpKind::Local(t) => assert_eq!(t, "MY_VAR"),
        _ => panic!("expected a local name"),
    }
    match classify_position(&doc, DocPosition { line: 9, character: 0 }) {
        JumpKind::NothingAt => {}
        _ => panic!("expected nothing"),
    }
}

#[test]
fn local_definition_is_the_nearest_preceding_binding() {
    let doc = lines(&["set(A 1)", "use(A)", "set(A 2)", "use(A)"]);
    let span = find_local_definition(&doc, "A", 4).expect("A is bound");
    assert_eq!(span.start.row, 2);
    assert_eq!(span.start.column, 4);
    assert_eq!(span.end.column, 5);

    let earlier = find_local_definition(&doc, "A", 2).expect("A is bound above row 2");
    assert_eq!(earlier.start.row, 0);

    assert!(find_local_definition(&doc, "B", 4).is_none());
}

#[test]
fn references_collect_every_usage_site() {
    let doc = lines(&["set(A 1)", "use(A B)", "other()"]);
    let refs = find_references(&doc, "A");
    assert_eq!(refs.len(), 2);
    assert_eq!(refs[0].start.row, 0);
    assert_eq!(refs[1].start.row, 1);
    assert_eq!(refs[1].start.column, 4);
}

#[test]
fn hover_finds_the_documented_candidate() {
    let entries = vec![CompletionEntry {
        label: String::from("project"),
        kind: CompletionKind::Function,
        detail: None,
        documentation: Some(String::from("Sets the project name.")),
        insert_text: None,
        insert_text_format: InsertFormat::PlainText,
    }];
    let doc = doc_for_word(&entries, "project").expect("documented");
    assert_eq!(doc, "Sets the project name.");
    assert!(doc_for_word(&entries, "other").is_none());
}

#[test]
fn hover_reads_the_word_under_the_cursor() {
    let entries = vec![CompletionEntry {
        label: String::from("MY_OPT"),
        kind: CompletionKind::Variable,
        detail: None,
        documentation: Some(String::from("An option.")),
        insert_text: None,
        insert_text_format: InsertFormat::PlainText,
    }];
    let doc = lines(&["option(MY_OPT \"doc\" ON)"]);
    let hover = get_cmake_doc(&doc, DocPosition { line: 0, character: 8 }, &entries);
    assert_eq!(hover.unwrap(), "An option.");
    assert!(get_cmake_doc(&doc, DocPosition { line: 5, character: 0 }, &entries).is_none());
}

#[test]
fn document_symbols_list_binding_constructs() {
    let doc = lines(&["set(A 1)", "project(p)", "function(helper x)"]);
    let symbols = document_symbols(&doc);
    assert_eq!(symbols.len(), 2);
    assert_eq!(symbols[0].0, "A");
    assert_eq!(symbols[0].1.start.row, 0);
    assert_eq!(symbols[1].0, "helper");
    assert_eq!(symbols[1].1.start.row, 2);
}

#[test]
fn origin_selection_is_the_token_under_the_cursor() {
    let doc = lines(&["find_package(Qt5)"]);
    let range = position_token_range(&doc, DocPosition { line: 0, character: 14 }).unwrap();
    assert_eq!(range.start.character, 13);
    assert_eq!(range.end.character, 16);
    assert!(position_token_range(&doc, DocPosition { line: 0, character: 2 }).is_none());
}
