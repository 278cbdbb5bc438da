//! The decision half of formatting: what a formatter run's exit code
//! and output mean for the document, and the extraction of the text a
//! range formatting request covers. Running the external formatter
//! itself is the caller's job.

use crate::protocol::{DocPosition, DocRange, DocTextEdit};
use crate::strutil::{split_at_sep, split_string};
use crate::utils::{lines_view, range_in_bounds, spec_range_content};
use vstd::prelude::*;
use vstd::string::*;

verus! {

/// The text the given range covers, rows joined with a newline; none
/// where the range does not lie inside the document.
pub fn range_source(content: &str, range: DocRange) -> (r: Option<String>)
    ensures
        ({
            let lines = split_at_sep(content@, '\n');
            let ok = range_in_bounds(
                lines,
                range.start.line as int,
                range.start.character as int,
                range.end.line as int,
                range.end.character as int,
            );
            &&& r is Some <==> ok
            &&& r matches Some(s) ==> s@ == spec_range_content(
                lines,
                range.start.line as int,
                range.start.character as int,
                range.end.line as int,
                range.end.character as int,
            )
        }),
{
    let lines = split_string(content, '\n');
    let ghost lv = split_at_sep(content@, '\n');
    proof {
        assert(lines_view(lines@) =~= lv);
    }
    let rs = range.start.line as usize;
    let cs = range.start.character as usize;
    let re = range.end.line as usize;
    let ce = range.end.character as usize;
    if re >= lines.len() || rs > re {
        return None;
    }
    let start_len = lines[rs].as_str().unicode_len();
    let end_len = lines[re].as_str().unicode_len();
    if cs > start_len || ce > end_len || (rs == re && cs > ce) {
        return None;
    }
    proof {
        assert(lv[rs as int] == lines@[rs as int]@);
        assert(lv[re as int] == lines@[re as int]@);
    }
    Some(crate::utils::get_range_content(lines.as_slice(), rs, cs, re, ce))
}

/// What a formatter run over a range means: a zero exit replaces the
/// range with the formatter's output; anything else is the error text,
/// surfaced to the user.
pub fn format_range_outcome(code: i32, out: String, err: String, range: DocRange) -> (r: Result<
    Option<Vec<DocTextEdit>>,
    String,
>)
    ensures
        code == 0 ==> (r matches Ok(Some(v)) && v@.len() == 1 && v@[0].range == range
            && v@[0].new_text@ == out@),
        code != 0 ==> (r matches Err(e) && e@ == err@),
{
    if code == 0 {
        let mut v: Vec<DocTextEdit> = Vec::new();
        v.push(DocTextEdit { range, new_text: out });
        Ok(Some(v))
    } else {
        Err(err)
    }
}

/// What a whole-document formatter run means: a zero exit replaces the
/// document from its start through a line count given by the output's
/// length — the source behavior, kept as is; anything else is the
/// error text.
pub fn getformat_outcome(code: i32, out: String, err: String) -> (r: Result<
    Option<Vec<DocTextEdit>>,
    String,
>)
    requires
        out@.len() < u32::MAX,
    ensures
        code == 0 ==> (r matches Ok(Some(v)) && v@.len() == 1 && v@[0].range == DocRange {
            start: DocPosition { line: 0, character: 0 },
            end: DocPosition { line: out@.len() as u32, character: 0 },
        } && v@[0].new_text@ == out@),
        code != 0 ==> (r matches Err(e) && e@ == err@),
{
    if code == 0 {
        let end_line = out.as_str().unicode_len() as u32;
        let range = DocRange {
            start: DocPosition { line: 0, character: 0 },
            end: DocPosition { line: end_line, character: 0 },
        };
        let mut v: Vec<DocTextEdit> = Vec::new();
        v.push(DocTextEdit { range, new_text: out });
        Ok(Some(v))
    } else {
        Err(err)
    }
}

} // verus!
