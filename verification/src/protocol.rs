//! Plain models of the editor-protocol values the engine produces:
//! positions, ranges, locations, diagnostics, text edits and completion
//! candidates. Coordinates are zero-based line/column, end-exclusive.

use vstd::prelude::*;

verus! {

/// A position in a document: zero-based line and column.
#[derive(Clone, Copy, Debug, PartialEq, Eq, Structural)]
pub struct DocPosition {
    pub line: u32,
    pub character: u32,
}

/// A half-open region of a document, end-exclusive.
#[derive(Clone, Copy, Debug, PartialEq, Eq, Structural)]
pub struct DocRange {
    pub start: DocPosition,
    pub end: DocPosition,
}

/// A place in some document of the workspace.
#[derive(Clone, Debug)]
pub struct DocLocation {
    /// Path of the document the location points into.
    pub uri: String,
    pub range: DocRange,
}

/// A navigation answer: a target location and the range the request
/// started from.
#[derive(Clone, Debug)]
pub struct DocLocationLink {
    pub origin_selection_range: Option<DocRange>,
    pub target_uri: String,
    pub target_range: DocRange,
    pub target_selection_range: DocRange,
}

/// One structured finding of the diagnostics engine.
#[derive(Clone, Debug)]
pub struct DocDiagnostic {
    pub range: DocRange,
    pub message: String,
    /// 1 = error, 2 = warning, 3 = information, 4 = hint; absent where
    /// the producer gave none.
    pub severity: Option<u32>,
}

/// A whole-set replacement of the diagnostics shown for one document;
/// an empty list clears what was shown before.
#[derive(Clone, Debug)]
pub struct DiagnosticsPublish {
    pub uri: String,
    pub diagnostics: Vec<DocDiagnostic>,
}

/// A replacement of the text inside a range.
#[derive(Clone, Debug)]
pub struct DocTextEdit {
    pub range: DocRange,
    pub new_text: String,
}

/// The role a completion candidate plays.
#[derive(Clone, Copy, Debug, PartialEq, Eq, Structural)]
pub enum CompletionKind {
    Function,
    Variable,
    Module,
    Snippet,
    Value,
}

/// How a candidate's insert text is to be read by the editor.
#[derive(Clone, Copy, Debug, PartialEq, Eq, Structural)]
pub enum InsertFormat {
    PlainText,
    SnippetTemplate,
}

/// One completion candidate.
#[derive(Clone, Debug)]
pub struct CompletionEntry {
    pub label: String,
    pub kind: CompletionKind,
    pub detail: Option<String>,
    pub documentation: Option<String>,
    pub insert_text: Option<String>,
    pub insert_text_format: InsertFormat,
}

/// The position `(0, 0)`.
pub fn zero_position() -> (p: DocPosition)
    ensures
        p.line == 0,
        p.character == 0,
{
    DocPosition { line: 0, character: 0 }
}

/// The empty range at `(0, 0)`: the coarse-grained jump target used for
/// whole-file locations.
pub fn zero_range() -> (r: DocRange)
    ensures
        r == spec_zero_range(),
{
    DocRange { start: DocPosition { line: 0, character: 0 }, end: DocPosition { line: 0, character: 0 } }
}

/// The empty range at `(0, 0)`.
pub open spec fn spec_zero_range() -> DocRange {
    DocRange {
        start: DocPosition { line: 0, character: 0 },
        end: DocPosition { line: 0, character: 0 },
    }
}

} // verus!
