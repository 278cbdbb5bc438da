//! Package records, syntax-node spans, and extraction of the text lying
//! between two positions of a line-split document.

use vstd::prelude::*;
use vstd::string::*;

verus! {

/// What kind of filesystem entry a package was resolved from.
#[derive(Debug, Clone, Copy, PartialEq, Eq, Structural)]
pub enum FileType {
    Dir,
    File,
}

impl FileType {
    /// The display name of the variant.
    pub fn name(&self) -> (r: &'static str)
        ensures
            *self is Dir ==> r@ == "Dir"@,
            *self is File ==> r@ == "File"@,
    {
        match self {
            FileType::Dir => "Dir",
            FileType::File => "File",
        }
    }
}

/// One resolved package: its name, where it was found, and every
/// candidate definition location discovered so far. Discoveries of the
/// same name merge their `tojump` sets instead of overwriting.
#[derive(Debug, Clone)]
pub struct CMakePackage {
    pub name: String,
    pub filetype: FileType,
    pub filepath: String,
    pub version: Option<String>,
    pub tojump: Vec<String>,
}

/// A position inside a syntax tree's source: zero-based row and column.
#[derive(Debug, Clone, Copy, PartialEq, Eq, Structural)]
pub struct SrcPoint {
    pub row: usize,
    pub column: usize,
}

/// The half-open span a syntax node covers, end-exclusive.
#[derive(Debug, Clone, Copy, PartialEq, Eq, Structural)]
pub struct SrcSpan {
    pub start: SrcPoint,
    pub end: SrcPoint,
}

/// The views of a document's lines.
pub open spec fn lines_view(source: Seq<String>) -> Seq<Seq<char>> {
    source.map_values(|s: String| s@)
}

/// The text of rows `row_start ..= row` of `lines`, the first row taken
/// from column `column_start`, rows joined with a newline.
pub open spec fn rows_from(
    lines: Seq<Seq<char>>,
    row_start: int,
    column_start: int,
    row: int,
) -> Seq<char>
    decreases row - row_start,
{
    if row <= row_start {
        lines[row_start].subrange(column_start, lines[row_start].len() as int)
    } else {
        rows_from(lines, row_start, column_start, row - 1) + seq!['\n'] + lines[row]
    }
}

/// The text lying between `(row_start, column_start)` and
/// `(row_end, column_end)` of `lines`, end-exclusive, rows joined with a
/// newline.
pub open spec fn spec_range_content(
    lines: Seq<Seq<char>>,
    row_start: int,
    column_start: int,
    row_end: int,
    column_end: int,
) -> Seq<char> {
    if row_start == row_end {
        lines[row_start].subrange(column_start, column_end)
    } else {
        rows_from(lines, row_start, column_start, row_end - 1) + seq!['\n']
            + lines[row_end].subrange(0, column_end)
    }
}

/// Whether the given positions lie inside `source`, start before end.
pub open spec fn range_in_bounds(
    lines: Seq<Seq<char>>,
    row_start: int,
    column_start: int,
    row_end: int,
    column_end: int,
) -> bool {
    &&& 0 <= row_start <= row_end < lines.len()
    &&& column_start <= lines[row_start].len()
    &&& column_end <= lines[row_end].len()
    &&& row_start == row_end ==> column_start <= column_end
}

/// The text between a start and an end position of a line-split
/// document, rows joined with a newline.
pub fn get_range_content(
    source: &[String],
    row_start: usize,
    column_start: usize,
    row_end: usize,
    column_end: usize,
) -> (r: String)
    requires
        range_in_bounds(
            lines_view(source@),
            row_start as int,
            column_start as int,
            row_end as int,
            column_end as int,
        ),
    ensures
        r@ == spec_range_content(
            lines_view(source@),
            row_start as int,
            column_start as int,
            row_end as int,
            column_end as int,
        ),
{
    let ghost lines = lines_view(source@);
    if row_start == row_end {
        let line: &String = &source[row_start];
        let piece = line.as_str().substring_char(column_start, column_end);
        String::from_str(piece)
    } else {
        let first: &String = &source[row_start];
        let first_len = first.as_str().unicode_len();
        let mut content = String::from_str(first.as_str().substring_char(column_start, first_len));
        let mut row: usize = row_start + 1;
        while row < row_end
            invariant
                row_start < row <= row_end < source@.len(),
                lines == lines_view(source@),
                content@ == rows_from(lines, row_start as int, column_start as int, row - 1),
            decreases row_end - row,
        {
            content.append("\n");
            content.append(source[row].as_str());
            proof {
                reveal_strlit("\n");
                assert(content@ =~= rows_from(lines, row_start as int, column_start as int, row as int));
            }
            row += 1;
        }
        content.append("\n");
        let last: &String = &source[row_end];
        content.append(last.as_str().substring_char(0, column_end));
        proof {
            reveal_strlit("\n");
            assert(content@ =~= spec_range_content(
                lines,
                row_start as int,
                column_start as int,
                row_end as int,
                column_end as int,
            ));
        }
        content
    }
}

/// The text a syntax node covers, read back from the document's lines.
pub fn get_node_content(source: &[String], node: &SrcSpan) -> (r: String)
    requires
        range_in_bounds(
            lines_view(source@),
            node.start.row as int,
            node.start.column as int,
            node.end.row as int,
            node.end.column as int,
        ),
    ensures
        r@ == spec_range_content(
            lines_view(source@),
            node.start.row as int,
            node.start.column as int,
            node.end.row as int,
            node.end.column as int,
        ),
{
    get_range_content(source, node.start.row, node.start.column, node.end.row, node.end.column)
}

} // verus!
