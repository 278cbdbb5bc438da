use neocmakelsp::complete::{
    ascii_lowercase, ascii_uppercase, builtin_entries, convert_to_lsp_snippet, getcomplete,
    make_command_items, make_plain_items, BuiltinCatalog, BuiltinCatalogCell, BuiltinEntry,
};
use neocmakelsp::protocol::{CompletionEntry, CompletionKind, DocPosition, InsertFormat};
use neocmakelsp::scan::WorkspaceIndex;
use neocmakelsp::utils::{CMakePackage, FileType};

fn lines(src: &[&str]) -> Vec<String> {
    src.iter().map(|s| s.to_string()).collect()
}

#[test]
fn failed_catalog_fetch_is_never_retried() {
    // The one fetch fails; both of two subsequent completion requests in
    // the same session omit the built-ins, with no retry in between.
    let mut cell = BuiltinCatalogCell::new();
    assert!(cell.needs_fetch());
    cell.install(None);
    assert!(!cell.needs_fetch());

    let doc = lines(&["set(LOCAL 1)"]);
    let idx = WorkspaceIndex::empty();
    let subdirs: Vec<String> = Vec::new();
    let at = DocPosition { line: 0, character: 2 };

    let first = getcomplete(&doc, at, &cell, &idx, &subdirs);
    let second = getcomplete(&doc, at, &cell, &idx, &subdirs);
    // only the one local name, no built-in candidates, both times
    assert_eq!(first.len(), 1);
    assert_eq!(second.len(), 1);
    assert_eq!(first[0].label, "LOCAL");
    assert!(!cell.needs_fetch());
}

#[test]
fn available_catalog_candidates_are_offered() {
    let mut cell = BuiltinCatalogCell::new();
    let entries = vec![BuiltinEntry {
        key: String::from("project"),
        doc: String::from("Sets the project name."),
    }];
    let commands = make_command_items(&entries, false);
    let variables = make_plain_items(&entries, CompletionKind::Variable, "Variable");
    let modules: Vec<CompletionEntry> = Vec::new();
    cell.install(Some(BuiltinCatalog { commands, variables, modules }));

    let doc = lines(&["set(X 1)"]);
    let idx = WorkspaceIndex::empty();
    let subdirs: Vec<String> = Vec::new();
    let all = getcomplete(&doc, DocPosition { line: 0, character: 0 }, &cell, &idx, &subdirs);
    // two command casings + one variable + the local name
    assert_eq!(all.len(), 4);
    assert_eq!(all[0].label, "project");
    assert_eq!(all[1].label, "PROJECT");
    assert_eq!(all[2].label, "project");
    assert_eq!(all[2].kind, CompletionKind::Variable);
    assert_eq!(all[3].label, "X");
}

#[test]
fn package_names_inside_package_reference_argument() {
    let mut idx = WorkspaceIndex::empty();
    idx.merge_package(CMakePackage {
        name: String::from("Qt5"),
        filetype: FileType::Dir,
        filepath: String::from("/q"),
        version: None,
        tojump: Vec::new(),
    });
    let cell = BuiltinCatalogCell::new();
    let subdirs = vec![String::from("sub")];
    let doc = lines(&["find_package(Q)", "add_subdirectory(s)"]);

    let in_pkg = getcomplete(&doc, DocPosition { line: 0, character: 14 }, &cell, &idx, &subdirs);
    assert!(in_pkg.iter().any(|e| e.label == "Qt5" && e.kind == CompletionKind::Module));

    let in_sub = getcomplete(&doc, DocPosition { line: 1, character: 18 }, &cell, &idx, &subdirs);
    assert!(in_sub.iter().any(|e| e.label == "sub" && e.kind == CompletionKind::Value));

    let outside = getcomplete(&doc, DocPosition { line: 0, character: 0 }, &cell, &idx, &subdirs);
    assert!(!outside.iter().any(|e| e.label == "Qt5"));
    assert!(!outside.iter().any(|e| e.label == "sub"));
}

#[test]
fn snippet_numbers_each_argument() {
    let args = vec![String::from("KEY"), String::from("VALUE")];
    let rendered = convert_to_lsp_snippet("set", &args);
    assert_eq!(rendered, "set(${1:KEY} ${2:VALUE})");

    let none: Vec<String> = Vec::new();
    assert_eq!(convert_to_lsp_snippet("endif", &none), "endif()");
}

#[test]
fn help_text_pairs_headings_with_bodies() {
    // Through the regex wrappers: the headings are found and the text
    // between them becomes each key's body. This fails if the wrappers
    // hand their input back unchanged.
    let help = "intro\nproject\n-------\nSets the name.\nset\n---\nBinds a variable.";
    let entries = builtin_entries("[a-zA-z]+\n-+", help).expect("the pattern is valid");
    assert_eq!(entries.len(), 2);
    assert_eq!(entries[0].key, "project");
    assert_eq!(entries[0].doc, "\nSets the name.\n");
    assert_eq!(entries[1].key, "set");
    assert_eq!(entries[1].doc, "\nBinds a variable.");
}

#[test]
fn command_items_render_documented_signatures_as_templates() {
    let entries = vec![BuiltinEntry {
        key: String::from("somecmd"),
        doc: String::from("Does things.\n   somecmd(ARG1 ARG2)\nmore text"),
    }];
    let with_snippets = make_command_items(&entries, true);
    assert_eq!(with_snippets.len(), 2);
    // lowercase key: the documented signature becomes a numbered template
    assert_eq!(with_snippets[0].label, "somecmd(${1:ARG1} ${2:ARG2})");
    assert_eq!(with_snippets[0].kind, CompletionKind::Snippet);
    assert_eq!(with_snippets[0].insert_text_format, InsertFormat::SnippetTemplate);
    // uppercase key: not snippet-capable, plain insertion of the name
    assert_eq!(with_snippets[1].label, "SOMECMD");
    assert_eq!(with_snippets[1].kind, CompletionKind::Function);
    assert_eq!(with_snippets[1].insert_text_format, InsertFormat::PlainText);

    // without editor snippet support everything stays plain
    let plain = make_command_items(&entries, false);
    assert_eq!(plain[0].label, "somecmd");
    assert_eq!(plain[0].insert_text_format, InsertFormat::PlainText);
}

#[test]
fn case_mapping_is_ascii_only() {
    assert_eq!(ascii_lowercase("Find_Package2"), "find_package2");
    assert_eq!(ascii_uppercase("set"), "SET");
}
