//! The session orchestrator: lifecycle events mutate the buffer cache
//! and drive re-analysis and rescans. Diagnostics are always computed
//! from the text the cache holds at analysis time, so what is published
//! after an event reflects that event's text, never an older snapshot.

use crate::buffer::BufferCache;
use crate::config::Config;
use crate::diagnostics::{analysis_views, diag_views, publish_diagnostics};
use crate::protocol::{DiagnosticsPublish, DocDiagnostic, DocRange};
use crate::strutil::{after_last_sep, lemma_split_at_sep_bounds, split_at_sep, split_string};
use vstd::prelude::*;
use vstd::string::*;

verus! {

/// What happened to a watched file.
#[derive(Clone, Copy, Debug, PartialEq, Eq, Structural)]
pub enum FileChangeKind {
    Created,
    Changed,
    Deleted,
}

/// What the orchestrator does about one watched-file change.
#[derive(Clone, Copy, Debug, PartialEq, Eq, Structural)]
pub enum WatchedFileAction {
    /// A top-level script appeared or vanished: full rescan of the
    /// workspace root, awaiting any scan already in flight first.
    RescanWorkspace,
    /// No workspace root is known; nothing to rescan.
    NoAction,
    /// The cache-metadata file was deleted: forget the package error
    /// state.
    ClearErrorPackages,
    /// The cache-metadata file changed: refresh the package error
    /// state from it, not a full rescan.
    RefreshErrorPackages,
}

/// One lifecycle event for a single document, as the cache sees it.
pub enum DocEvent {
    Open { text: Seq<char> },
    Change { text: Seq<char> },
    Save { text: Option<Seq<char>> },
}

/// The cache text of one document after an event: opening keeps what
/// is already there, a change always replaces, a save replaces only
/// when it carries text.
pub open spec fn apply_event(cur: Option<Seq<char>>, e: DocEvent) -> Option<Seq<char>> {
    match e {
        DocEvent::Open { text } => match cur {
            Some(t) => Some(t),
            None => Some(text),
        },
        DocEvent::Change { text } => Some(text),
        DocEvent::Save { text } => match text {
            Some(t) => Some(t),
            None => cur,
        },
    }
}

/// The cache text after a whole sequence of events.
pub open spec fn replay(cur: Option<Seq<char>>, events: Seq<DocEvent>) -> Option<Seq<char>>
    decreases events.len(),
{
    if events.len() == 0 {
        cur
    } else {
        apply_event(replay(cur, events.drop_last()), events.last())
    }
}

/// What one analysis pass over a document's raw text reports.
pub open spec fn text_analysis(
    text: Seq<char>,
    lint: Seq<(DocRange, Seq<char>, Option<u32>)>,
    lint_mode: bool,
) -> Seq<(DocRange, Seq<char>, Option<u32>)> {
    analysis_views(split_at_sep(text, '\n'), lint, lint_mode)
}

/// The text a document holds in the cache, if any.
pub open spec fn doc_text(m: Map<Seq<char>, Seq<char>>, id: Seq<char>) -> Option<Seq<char>> {
    if m.contains_key(id) {
        Some(m[id])
    } else {
        None
    }
}

/// A text short enough for the protocol's 32-bit positions.
pub open spec fn text_fits(text: Seq<char>) -> bool {
    text.len() < u32::MAX - 1
}

/// The shared state the orchestrator owns and hands to each handler.
pub struct Session {
    pub buffers: BufferCache,
    pub root_path: Option<String>,
    pub scan_cmake_in_package: bool,
    /// Names of packages the cache-metadata file marks as failing.
    pub error_packages: Vec<String>,
}

impl Session {
    /// Every cached text is short enough to analyze.
    pub open spec fn wf(self) -> bool {
        &&& self.buffers.wf()
        &&& forall|k: Seq<char>|
            self.buffers@.contains_key(k) ==> text_fits(#[trigger] self.buffers@[k])
    }

    /// A fresh session: empty cache, no root, package scanning off
    /// until initialization says otherwise.
    pub fn new() -> (r: Session)
        ensures
            r.wf(),
            r.buffers@ == Map::<Seq<char>, Seq<char>>::empty(),
            r.root_path is None,
            !r.scan_cmake_in_package,
            r.error_packages@.len() == 0,
    {
        Session {
            buffers: BufferCache::new(),
            root_path: None,
            scan_cmake_in_package: false,
            error_packages: Vec::new(),
        }
    }

    /// Applies the initialization options and records the workspace
    /// root; a full scan is owed exactly where a root is known.
    pub fn initialize(&mut self, config: &Config, root_path: Option<&String>) -> (schedule_scan:
        bool)
        requires
            old(self).wf(),
        ensures
            final(self).wf(),
            final(self).buffers == old(self).buffers,
            final(self).error_packages == old(self).error_packages,
            final(self).scan_cmake_in_package == config.spec_scan_in_package(),
            root_path matches Some(p) ==> (final(self).root_path matches Some(q) && q@ == p@),
            root_path is None ==> final(self).root_path is None,
            schedule_scan == root_path is Some,
    {
        self.scan_cmake_in_package = config.is_scan_cmake_in_package();
        match root_path {
            Some(p) => {
                self.root_path = Some(p.clone());
                true
            },
            None => {
                self.root_path = None;
                false
            },
        }
    }

    /// A document was opened: the cache takes the text only if the
    /// document is absent, and the opened text is analyzed and its
    /// whole finding set published.
    pub fn on_open(&mut self, uri: &str, text: &str, lint_findings: &Vec<DocDiagnostic>) -> (p:
        DiagnosticsPublish)
        requires
            old(self).wf(),
            text_fits(text@),
        ensures
            final(self).wf(),
            final(self).root_path == old(self).root_path,
            doc_text(final(self).buffers@, uri@) == apply_event(
                doc_text(old(self).buffers@, uri@),
                DocEvent::Open { text: text@ },
            ),
            forall|k: Seq<char>|
                k != uri@ ==> doc_text(final(self).buffers@, k) == doc_text(
                    #[trigger] old(self).buffers@,
                    k,
                ),
            p.uri@ == uri@,
            diag_views(p.diagnostics@) == text_analysis(text@, diag_views(lint_findings@), true),
    {
        self.buffers.open(uri, text);
        publish_for_text(uri, text, lint_findings)
    }

    /// A document changed: the cache takes the whole new text; no
    /// publish happens here — analysis follows on save or on demand.
    pub fn on_change(&mut self, uri: &str, text: &str)
        requires
            old(self).wf(),
            text_fits(text@),
        ensures
            final(self).wf(),
            final(self).root_path == old(self).root_path,
            doc_text(final(self).buffers@, uri@) == apply_event(
                doc_text(old(self).buffers@, uri@),
                DocEvent::Change { text: text@ },
            ),
            forall|k: Seq<char>|
                k != uri@ ==> doc_text(final(self).buffers@, k) == doc_text(
                    #[trigger] old(self).buffers@,
                    k,
                ),
    {
        self.buffers.change(uri, text);
    }

    /// A document was saved, optionally with its full text: the cache
    /// is updated, the text now cached is analyzed and its whole
    /// finding set published, and a rescan of the containing subtree is
    /// owed exactly where a workspace root is known.
    pub fn on_save(&mut self, uri: &str, text: Option<&String>, lint_findings: &Vec<DocDiagnostic>)
        -> (r: (Option<DiagnosticsPublish>, bool))
        requires
            old(self).wf(),
            text matches Some(t) ==> text_fits(t@),
        ensures
            final(self).wf(),
            final(self).root_path == old(self).root_path,
            doc_text(final(self).buffers@, uri@) == apply_event(
                doc_text(old(self).buffers@, uri@),
                DocEvent::Save {
                    text: match text {
                        Some(t) => Some(t@),
                        None => None,
                    },
                },
            ),
            forall|k: Seq<char>|
                k != uri@ ==> doc_text(final(self).buffers@, k) == doc_text(
                    #[trigger] old(self).buffers@,
                    k,
                ),
            r.1 == old(self).root_path is Some,
            r.0 is Some <==> final(self).buffers@.contains_key(uri@),
            r.0 matches Some(p) ==> p.uri@ == uri@ && diag_views(p.diagnostics@) == text_analysis(
                final(self).buffers@[uri@],
                diag_views(lint_findings@),
                true,
            ),
    {
        let rescan = match &self.root_path {
            Some(_) => true,
            None => false,
        };
        self.buffers.save(uri, text);
        let publish = match self.buffers.get(uri) {
            Some(content) => Some(publish_for_text(uri, content.as_str(), lint_findings)),
            None => None,
        };
        (publish, rescan)
    }

    /// A document was closed: nothing is evicted, nothing published.
    pub fn on_close(&mut self, uri: &str)
        requires
            old(self).wf(),
        ensures
            *final(self) == *old(self),
    {
        self.buffers.close(uri);
    }

    /// Re-analyzes every cached document and returns one whole publish
    /// per document, each reflecting the text the cache holds now.
    pub fn update_diagnostics(&self, lint_findings: &Vec<DocDiagnostic>) -> (r: Vec<
        DiagnosticsPublish,
    >)
        requires
            self.wf(),
        ensures
            r@.len() == self.buffers.store.entries_seq().len(),
            forall|i: int|
                0 <= i < r@.len() ==> {
                    let entry = self.buffers.store.entries_seq()[i];
                    &&& (#[trigger] r@[i]).uri@ == entry.0@
                    &&& diag_views(r@[i].diagnostics@) == text_analysis(
                        entry.1@,
                        diag_views(lint_findings@),
                        true,
                    )
                },
    {
        let mut r: Vec<DiagnosticsPublish> = Vec::new();
        let n = self.buffers.store.len();
        let mut i: usize = 0;
        while i < n
            invariant
                i <= n,
                n == self.buffers.store.entries_seq().len(),
                self.wf(),
                r@.len() == i,
                forall|m: int|
                    0 <= m < i ==> {
                        let entry = self.buffers.store.entries_seq()[m];
                        &&& (#[trigger] r@[m]).uri@ == entry.0@
                        &&& diag_views(r@[m].diagnostics@) == text_analysis(
                            entry.1@,
                            diag_views(lint_findings@),
                            true,
                        )
                    },
            decreases n - i,
        {
            let (uri, content) = self.buffers.store.entry_at(i);
            proof {
                self.buffers.store.lemma_entry_in_view(i as int);
                assert(text_fits(self.buffers@[self.buffers.store.entries_seq()[i as int].0@]));
                assert(content@ == self.buffers@[self.buffers.store.entries_seq()[i as int].0@]);
            }
            let p = publish_for_text(uri.as_str(), content.as_str(), lint_findings);
            r.push(p);
            i += 1;
        }
        r
    }

    /// Classifies one watched-file change: a top-level script created
    /// or deleted asks for a full rescan (where a root is known at
    /// all); anything else concerns the cache-metadata file, whose
    /// deletion clears the package error state and whose change
    /// refreshes it.
    pub fn on_watched_file_change(&self, path: &str, kind: FileChangeKind) -> (r:
        WatchedFileAction)
        ensures
            after_last_sep(path@, '/') == "CMakeLists.txt"@ && self.root_path is Some
                ==> r == WatchedFileAction::RescanWorkspace,
            after_last_sep(path@, '/') == "CMakeLists.txt"@ && self.root_path is None
                ==> r == WatchedFileAction::NoAction,
            after_last_sep(path@, '/') != "CMakeLists.txt"@ && kind == FileChangeKind::Deleted
                ==> r == WatchedFileAction::ClearErrorPackages,
            after_last_sep(path@, '/') != "CMakeLists.txt"@ && kind != FileChangeKind::Deleted
                ==> r == WatchedFileAction::RefreshErrorPackages,
    {
        let name = crate::strutil::last_path_segment(path);
        if crate::strutil::str_eq(name.as_str(), "CMakeLists.txt") {
            match &self.root_path {
                Some(_) => WatchedFileAction::RescanWorkspace,
                None => WatchedFileAction::NoAction,
            }
        } else {
            match kind {
                FileChangeKind::Deleted => WatchedFileAction::ClearErrorPackages,
                _ => WatchedFileAction::RefreshErrorPackages,
            }
        }
    }

    /// Forgets the package error state.
    pub fn clear_error_packages(&mut self)
        requires
            old(self).wf(),
        ensures
            final(self).wf(),
            final(self).error_packages@.len() == 0,
            final(self).buffers == old(self).buffers,
            final(self).root_path == old(self).root_path,
            final(self).scan_cmake_in_package == old(self).scan_cmake_in_package,
    {
        self.error_packages = Vec::new();
    }

    /// Replaces the package error state with what the cache-metadata
    /// file now names — an incremental refresh, not a rescan.
    pub fn refresh_error_packages(&mut self, names: Vec<String>)
        requires
            old(self).wf(),
        ensures
            final(self).wf(),
            final(self).error_packages == names,
            final(self).buffers == old(self).buffers,
            final(self).root_path == old(self).root_path,
            final(self).scan_cmake_in_package == old(self).scan_cmake_in_package,
    {
        self.error_packages = names;
    }
}

/// Splits a text into lines and publishes its whole analysis.
fn publish_for_text(uri: &str, text: &str, lint_findings: &Vec<DocDiagnostic>) -> (p:
    DiagnosticsPublish)
    requires
        text_fits(text@),
    ensures
        p.uri@ == uri@,
        diag_views(p.diagnostics@) == text_analysis(text@, diag_views(lint_findings@), true),
{
    let lines = split_string(text, '\n');
    proof {
        lemma_split_at_sep_bounds(text@, '\n');
        assert(crate::utils::lines_view(lines@) =~= split_at_sep(text@, '\n'));
        assert forall|k: int| 0 <= k < lines@.len() implies (#[trigger] lines@[k])@.len()
            < u32::MAX by {
            assert(lines@.map_values(|p: String| p@)[k] == split_at_sep(text@, '\n')[k]);
        }
    }
    publish_diagnostics(uri, lines.as_slice(), lint_findings, true)
}

/// Diagnostics published after the last event of a document reflect
/// exactly that event's text: after a change, or a save carrying text,
/// the cache — which every publish is computed from — holds that text;
/// after a save without text it holds what the events before left; and
/// after an open it holds the opened text unless the document was
/// already open.
pub proof fn lemma_no_stale_diagnostics(init: Option<Seq<char>>, events: Seq<DocEvent>)
    requires
        events.len() > 0,
    ensures
        events.last() matches DocEvent::Change { text } ==> replay(init, events) == Some(text),
        events.last() matches DocEvent::Save { text: Some(t) } ==> replay(init, events) == Some(t),
        events.last() matches DocEvent::Save { text: None } ==> replay(init, events) == replay(
            init,
            events.drop_last(),
        ),
        events.last() matches DocEvent::Open { text } ==> replay(init, events) == (match replay(
            init,
            events.drop_last(),
        ) {
            Some(t) => Some(t),
            None => Some(text),
        }),
{
}

/// Whether initialization refreshes the package error state right
/// away: only where the editor registered dynamic watching with
/// relative-pattern support and the cache-metadata file exists.
pub fn initial_cache_refresh(
    dynamic_registration: Option<bool>,
    relative_pattern_support: Option<bool>,
    cache_file_exists: bool,
) -> (r: bool)
    ensures
        r == (dynamic_registration == Some(true) && relative_pattern_support == Some(true)
            && cache_file_exists),
{
    match (dynamic_registration, relative_pattern_support) {
        (Some(true), Some(true)) => cache_file_exists,
        _ => false,
    }
}

} // verus!
