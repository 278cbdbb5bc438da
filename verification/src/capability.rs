//! The client-capability snapshot: a process-wide record of what the
//! connected editor supports, written once at initialization and read
//! for the rest of the session.

use vstd::prelude::*;

verus! {

/// What the editor declared about completion items.
#[derive(Clone, Copy, Debug, PartialEq, Eq)]
pub struct CompletionItemCapabilities {
    pub snippet_support: Option<bool>,
}

/// What the editor declared about completion.
#[derive(Clone, Copy, Debug, PartialEq, Eq)]
pub struct CompletionCapabilities {
    pub completion_item: Option<CompletionItemCapabilities>,
}

/// What the editor declared about text documents.
#[derive(Clone, Copy, Debug, PartialEq, Eq)]
pub struct TextDocumentCapabilities {
    pub completion: Option<CompletionCapabilities>,
}

/// The snapshot cell: unset until initialization stores the editor's
/// declaration — possibly an absent one — exactly once.
pub struct CapabilitySnapshot {
    pub stored: Option<Option<TextDocumentCapabilities>>,
}

impl CapabilitySnapshot {
    /// Whether initialization has written the snapshot yet.
    pub open spec fn is_set(self) -> bool {
        self.stored is Some
    }

    /// What the snapshot holds once written.
    pub open spec fn spec_value(self) -> Option<TextDocumentCapabilities> {
        self.stored.unwrap()
    }

    /// A snapshot not yet written.
    pub fn new() -> (r: CapabilitySnapshot)
        ensures
            !r.is_set(),
    {
        CapabilitySnapshot { stored: None }
    }

    /// Stores the editor's declaration; write-once, at initialization.
    pub fn set_client_text_document(&mut self, text_document: Option<TextDocumentCapabilities>)
        requires
            !old(self).is_set(),
        ensures
            final(self).is_set(),
            final(self).spec_value() == text_document,
    {
        self.stored = Some(text_document);
    }

    /// The stored declaration; absent until initialization, and absent
    /// where the editor declared nothing.
    pub fn get_client_capabilities(&self) -> (r: Option<TextDocumentCapabilities>)
        ensures
            self.is_set() ==> r == self.spec_value(),
            !self.is_set() ==> r is None,
    {
        match &self.stored {
            Some(v) => *v,
            None => None,
        }
    }

    /// Whether the editor supports placeholder-style insertion
    /// templates: declared support, with absence at any level of the
    /// declaration meaning no.
    pub fn client_support_snippet(&self) -> (r: bool)
        ensures
            r == spec_support_snippet(if self.is_set() {
                self.spec_value()
            } else {
                None
            }),
    {
        match self.get_client_capabilities() {
            Some(c) => match c.completion {
                Some(completion) => match completion.completion_item {
                    Some(item) => match item.snippet_support {
                        Some(b) => b,
                        None => false,
                    },
                    None => false,
                },
                None => false,
            },
            None => false,
        }
    }
}

/// Snippet support as the declaration chain spells it out: true only
/// where every level is present and the leaf says so.
pub open spec fn spec_support_snippet(td: Option<TextDocumentCapabilities>) -> bool {
    match td {
        Some(c) => match c.completion {
            Some(completion) => match completion.completion_item {
                Some(item) => match item.snippet_support {
                    Some(b) => b,
                    None => false,
                },
                None => false,
            },
            None => false,
        },
        None => false,
    }
}

} // verus!
