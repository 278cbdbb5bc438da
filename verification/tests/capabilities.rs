use neocmakelsp::capability::{
    CapabilitySnapshot, CompletionCapabilities, CompletionItemCapabilities,
    TextDocumentCapabilities,
};

#[test]
fn snippet_support_needs_the_whole_declaration_chain() {
    let mut snap = CapabilitySnapshot::new();
    assert!(!snap.client_support_snippet());
    snap.set_client_text_document(Some(TextDocumentCapabilities {
        completion: Some(CompletionCapabilities {
            completion_item: Some(CompletionItemCapabilities { snippet_support: Some(true) }),
        }),
    }));
    assert!(snap.client_support_snippet());
    assert!(snap.get_client_capabilities().is_some());
}

#[test]
fn absent_levels_mean_no_snippets() {
    let mut no_leaf = CapabilitySnapshot::new();
    no_leaf.set_client_text_document(Some(TextDocumentCapabilities {
        completion: Some(CompletionCapabilities {
            completion_item: Some(CompletionItemCapabilities { snippet_support: None }),
        }),
    }));
    assert!(!no_leaf.client_support_snippet());

    let mut no_completion = CapabilitySnapshot::new();
    no_completion.set_client_text_document(Some(TextDocumentCapabilities { completion: None }));
    assert!(!no_completion.client_support_snippet());

    let mut nothing = CapabilitySnapshot::new();
    nothing.set_client_text_document(None);
    assert!(!nothing.client_support_snippet());
    assert!(nothing.get_client_capabilities().is_none());
}
