//! The diagnostics engine: structural checks over a document's lines,
//! the lint dispatch point, and the always-complete publish set. Every
//! analysis pass produces a whole replacement list — empty where nothing
//! is wrong — so stale findings are always cleared.

use crate::grammar::{line_shape, LineParse, LineShape};
use crate::protocol::{DiagnosticsPublish, DocDiagnostic, DocPosition, DocRange};
use crate::utils::lines_view;
use vstd::prelude::*;
use vstd::string::*;

verus! {

/// Severity code for an error finding.
pub const SEVERITY_ERROR: u32 = 1;

/// The message attached to an invocation whose closing parenthesis is
/// missing on its line.
pub open spec fn unclosed_message() -> Seq<char> {
    "unclosed command invocation"@
}

/// What one diagnostic holds, as plain values.
pub open spec fn diag_view(d: DocDiagnostic) -> (DocRange, Seq<char>, Option<u32>) {
    (d.range, d.message@, d.severity)
}

/// The views of a diagnostic list.
pub open spec fn diag_views(s: Seq<DocDiagnostic>) -> Seq<(DocRange, Seq<char>, Option<u32>)> {
    s.map_values(|d: DocDiagnostic| diag_view(d))
}

/// The structural finding for one unclosed line: the whole line's
/// span, the fixed message, error severity.
pub open spec fn unclosed_diag_view(lines: Seq<Seq<char>>, row: int) -> (
    DocRange,
    Seq<char>,
    Option<u32>,
) {
    (
        DocRange {
            start: DocPosition { line: row as u32, character: 0 },
            end: DocPosition { line: row as u32, character: lines[row].len() as u32 },
        },
        unclosed_message(),
        Some(SEVERITY_ERROR),
    )
}

/// The structural findings of the first `n` lines, in row order: one
/// per line whose invocation is left unclosed.
pub open spec fn structural_views(lines: Seq<Seq<char>>, n: int) -> Seq<
    (DocRange, Seq<char>, Option<u32>),
>
    decreases n,
{
    if n <= 0 {
        Seq::empty()
    } else if line_shape(lines[n - 1]) is Unclosed {
        structural_views(lines, n - 1).push(unclosed_diag_view(lines, n - 1))
    } else {
        structural_views(lines, n - 1)
    }
}

/// What a whole analysis pass reports: the structural findings, then,
/// when lint mode is on, the style findings of the rule catalog.
pub open spec fn analysis_views(
    lines: Seq<Seq<char>>,
    lint: Seq<(DocRange, Seq<char>, Option<u32>)>,
    lint_mode: bool,
) -> Seq<(DocRange, Seq<char>, Option<u32>)> {
    structural_views(lines, lines.len() as int) + if lint_mode {
        lint
    } else {
        Seq::empty()
    }
}

/// Checks every line for structural issues.
pub fn check_structure(source: &[String]) -> (r: Vec<DocDiagnostic>)
    requires
        source@.len() < u32::MAX,
        forall|k: int| 0 <= k < source@.len() ==> (#[trigger] source@[k])@.len() < u32::MAX,
    ensures
        diag_views(r@) == structural_views(lines_view(source@), source@.len() as int),
{
    let ghost lines = lines_view(source@);
    let mut r: Vec<DocDiagnostic> = Vec::new();
    let mut row: usize = 0;
    while row < source.len()
        invariant
            row <= source@.len() < u32::MAX,
            lines == lines_view(source@),
            forall|k: int| 0 <= k < source@.len() ==> (#[trigger] source@[k])@.len() < u32::MAX,
            diag_views(r@) == structural_views(lines, row as int),
        decreases source@.len() - row,
    {
        let line = &source[row];
        let parsed = crate::grammar::parse_line(line.as_str(), row);
        if let LineParse::Unclosed = parsed {
            let len32 = line.as_str().unicode_len() as u32;
            let d = DocDiagnostic {
                range: DocRange {
                    start: DocPosition { line: row as u32, character: 0 },
                    end: DocPosition { line: row as u32, character: len32 },
                },
                message: String::from_str("unclosed command invocation"),
                severity: Some(SEVERITY_ERROR),
            };
            r.push(d);
            proof {
                assert(diag_views(r@) =~~= structural_views(lines, row + 1));
            }
        } else {
            proof {
                assert(diag_views(r@) =~~= structural_views(lines, row + 1));
            }
        }
        row += 1;
    }
    r
}

/// One analysis pass: always the structural check; the style findings
/// of the external rule catalog appended only in lint mode.
pub fn analyze(source: &[String], lint_findings: &Vec<DocDiagnostic>, lint_mode: bool) -> (r: Vec<
    DocDiagnostic,
>)
    requires
        source@.len() < u32::MAX,
        forall|k: int| 0 <= k < source@.len() ==> (#[trigger] source@[k])@.len() < u32::MAX,
    ensures
        diag_views(r@) == analysis_views(lines_view(source@), diag_views(lint_findings@), lint_mode),
{
    let mut r = check_structure(source);
    let ghost structural = diag_views(r@);
    if lint_mode {
        let mut i: usize = 0;
        while i < lint_findings.len()
            invariant
                i <= lint_findings@.len(),
                structural == structural_views(lines_view(source@), source@.len() as int),
                diag_views(r@) == structural + diag_views(lint_findings@).subrange(0, i as int),
            decreases lint_findings@.len() - i,
        {
            let f = &lint_findings[i];
            let copy = DocDiagnostic {
                range: f.range,
                message: f.message.clone(),
                severity: f.severity,
            };
            let ghost rprev = r@;
            r.push(copy);
            proof {
                rprev.lemma_push_map_commute(|d: DocDiagnostic| diag_view(d), r@.last());
                assert(diag_view(r@.last()) == diag_views(lint_findings@)[i as int]);
                assert(diag_views(lint_findings@).subrange(0, i + 1) =~= diag_views(
                    lint_findings@,
                ).subrange(0, i as int).push(diag_views(lint_findings@)[i as int]));
                assert(diag_views(r@) =~~= structural + diag_views(lint_findings@).subrange(
                    0,
                    i + 1,
                ));
            }
            i += 1;
        }
        proof {
            assert(diag_views(lint_findings@).subrange(0, lint_findings@.len() as int)
                =~= diag_views(lint_findings@));
        }
    } else {
        proof {
            assert(diag_views(r@) =~= analysis_views(
                lines_view(source@),
                diag_views(lint_findings@),
                false,
            ));
        }
    }
    r
}

/// The full publish for one document: its whole analysis result, an
/// empty list included — the set shown for the document is replaced,
/// never patched.
pub fn publish_diagnostics(
    uri: &str,
    source: &[String],
    lint_findings: &Vec<DocDiagnostic>,
    lint_mode: bool,
) -> (p: DiagnosticsPublish)
    requires
        source@.len() < u32::MAX,
        forall|k: int| 0 <= k < source@.len() ==> (#[trigger] source@[k])@.len() < u32::MAX,
    ensures
        p.uri@ == uri@,
        diag_views(p.diagnostics@) == analysis_views(
            lines_view(source@),
            diag_views(lint_findings@),
            lint_mode,
        ),
{
    DiagnosticsPublish {
        uri: String::from_str(uri),
        diagnostics: analyze(source, lint_findings, lint_mode),
    }
}

/// No line of a document leaves an invocation unclosed.
pub open spec fn structurally_clean(lines: Seq<Seq<char>>) -> bool {
    forall|row: int| 0 <= row < lines.len() ==> !(line_shape(#[trigger] lines[row]) is Unclosed)
}

proof fn lemma_structural_views_clean(lines: Seq<Seq<char>>, n: int)
    requires
        structurally_clean(lines),
        n <= lines.len(),
    ensures
        structural_views(lines, n).len() == 0,
    decreases n,
{
    if n > 0 {
        lemma_structural_views_clean(lines, n - 1);
    }
}

/// A document with no structural issues, analyzed outside lint mode or
/// with an empty rule catalog, still publishes: an empty list, which
/// clears whatever was shown before.
pub proof fn lemma_clean_document_publishes_empty(
    lines: Seq<Seq<char>>,
    lint: Seq<(DocRange, Seq<char>, Option<u32>)>,
    lint_mode: bool,
)
    requires
        structurally_clean(lines),
        lint_mode ==> lint.len() == 0,
    ensures
        analysis_views(lines, lint, lint_mode).len() == 0,
{
    lemma_structural_views_clean(lines, lines.len() as int);
}

} // verus!
