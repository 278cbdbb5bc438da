//! The navigation resolver: classifies the construct enclosing a
//! cursor position and resolves names to locations — package references
//! through the workspace index, subdirectory inclusions against the
//! document's directory, and locally scoped names inside the document.

use crate::complete::{line_cmd_name, opt_string_view};
use crate::protocol::CompletionEntry;
use crate::grammar::{line_shape, LineParse, LineShape};
use crate::protocol::{DocPosition, DocRange};
use crate::utils::{lines_view, SrcPoint, SrcSpan};
use vstd::prelude::*;
use vstd::string::*;

verus! {


/// The span with the given row and half-open column range.
pub open spec fn span_for(row: int, c0: int, c1: int) -> SrcSpan {
    SrcSpan {
        start: SrcPoint { row: row as usize, column: c0 as usize },
        end: SrcPoint { row: row as usize, column: c1 as usize },
    }
}

/// The syntactic role of what the cursor stands on.
pub enum JumpKind {
    /// The cursor is on an argument of a package-reference invocation.
    PackageRef(String),
    /// The cursor is on an argument of a subdirectory-inclusion
    /// invocation.
    SubdirRef(String),
    /// The cursor is on some other argument token: a locally scoped
    /// name.
    Local(String),
    /// The cursor is on nothing that resolves.
    NothingAt,
}

/// The span of the argument under the cursor on a line, if any: the
/// first argument whose half-open span contains the column.
pub open spec fn arg_span_at(s: Seq<char>, col: int) -> Option<(int, int)> {
    match line_shape(s) {
        LineShape::Cmd { args, .. } => if exists|k: int|
            0 <= k < args.len() && (#[trigger] args[k]).0 <= col < args[k].1 {
            let k = choose|k: int| 0 <= k < args.len() && (#[trigger] args[k]).0 <= col < args[k].1;
            Some(args[k])
        } else {
            None
        },
        _ => None,
    }
}

/// What classification the cursor position is owed: the argument text
/// under it, tagged by the enclosing invocation's name.
pub open spec fn classification_matches(
    r: JumpKind,
    lines: Seq<Seq<char>>,
    line: int,
    col: int,
) -> bool {
    if 0 <= line < lines.len() && arg_span_at(lines[line], col) is Some {
        let span = arg_span_at(lines[line], col).unwrap();
        let text = lines[line].subrange(span.0, span.1);
        if line_cmd_name(lines[line]) == "find_package"@ {
            r matches JumpKind::PackageRef(t) && t@ == text
        } else if line_cmd_name(lines[line]) == "add_subdirectory"@ {
            r matches JumpKind::SubdirRef(t) && t@ == text
        } else {
            r matches JumpKind::Local(t) && t@ == text
        }
    } else {
        r is NothingAt
    }
}

/// Classifies the construct under the cursor.
pub fn classify_position(source: &[String], position: DocPosition) -> (r: JumpKind)
    ensures
        classification_matches(
            r,
            lines_view(source@),
            position.line as int,
            position.character as int,
        ),
{
    let ghost lines = lines_view(source@);
    let row = position.line as usize;
    let col = position.character as usize;
    if row >= source.len() {
        return JumpKind::NothingAt;
    }
    let text = &source[row];
    let _n = text.as_str().unicode_len();
    proof {
        assert(lines[row as int] == text@);
        crate::grammar::lemma_line_args_wf(text@);
    }
    match crate::grammar::parse_line(text.as_str(), row) {
        LineParse::Command(inv) => {
            let ghost sargs = (match line_shape(text@) {
                LineShape::Cmd { args, .. } => args,
                _ => Seq::empty(),
            });
            let mut k: usize = 0;
            while k < inv.args.len()
                invariant
                    k <= inv.args@.len(),
                    lines == lines_view(source@),
                    row < source@.len(),
                    col == position.character,
                    row == position.line,
                    lines[row as int] == text@,
                    crate::grammar::inv_matches_line(inv, text@, row as int),
                    sargs == (match line_shape(text@) {
                        LineShape::Cmd { args, .. } => args,
                        _ => Seq::<(int, int)>::empty(),
                    }),
                    inv.args@.len() == sargs.len(),
                    text@.len() <= usize::MAX,
                    forall|k1: int|
                        0 <= k1 < sargs.len() ==> 0 <= (#[trigger] sargs[k1]).0 < sargs[k1].1
                            <= text@.len(),
                    forall|k1: int, k2: int|
                        0 <= k1 < k2 < sargs.len() ==> (#[trigger] sargs[k1]).1 <= (
                        #[trigger] sargs[k2]).0,
                    forall|m: int|
                        0 <= m < k ==> !((#[trigger] sargs[m]).0 <= col < sargs[m].1),
                decreases inv.args@.len() - k,
            {
                let a = &inv.args[k];
                proof {
                    assert(inv.args@[k as int].span == span_for(
                        row as int,
                        sargs[k as int].0,
                        sargs[k as int].1,
                    ));
                    assert(0 <= sargs[k as int].0 < sargs[k as int].1 <= text@.len()
                        <= usize::MAX);
                    assert(inv.args@[k as int].span.start.column as int == sargs[k as int].0);
                    assert(inv.args@[k as int].span.end.column as int == sargs[k as int].1);
                }
                if a.span.start.column <= col && col < a.span.end.column {
                    proof {
                        assert(sargs[k as int].0 <= col < sargs[k as int].1);
                        let w = choose|w: int|
                            0 <= w < sargs.len() && (#[trigger] sargs[w]).0 <= col < sargs[w].1;
                        if w < k as int {
                            assert(sargs[w].1 <= sargs[k as int].0);
                            assert(false);
                        } else if w > k as int {
                            assert(sargs[k as int].1 <= sargs[w].0);
                            assert(false);
                        }
                        assert(arg_span_at(text@, col as int) == Some(sargs[k as int]));
                        assert(inv.args@[k as int].text@ == text@.subrange(
                            sargs[k as int].0,
                            sargs[k as int].1,
                        ));
                    }
                    let is_pkg = crate::strutil::str_eq(inv.name.as_str(), "find_package");
                    let is_sub = crate::strutil::str_eq(inv.name.as_str(), "add_subdirectory");
                    proof {
                        assert(inv.name@ == line_cmd_name(text@));
                    }
                    let t = a.text.clone();
                    if is_pkg {
                        return JumpKind::PackageRef(t);
                    } else if is_sub {
                        return JumpKind::SubdirRef(t);
                    } else {
                        return JumpKind::Local(t);
                    }
                }
                k += 1;
            }
            proof {
                if arg_span_at(text@, col as int) is Some {
                    let w = choose|w: int|
                        0 <= w < sargs.len() && (#[trigger] sargs[w]).0 <= col < sargs[w].1;
                    assert(!(sargs[w].0 <= col < sargs[w].1));
                }
            }
            JumpKind::NothingAt
        },
        _ => JumpKind::NothingAt,
    }
}

/// The row and first-argument span of the last binding of `name` on a
/// row before `upto`, scanning from the top; none where no such
/// binding stands.
pub open spec fn last_binding(lines: Seq<Seq<char>>, name: Seq<char>, upto: int) -> Option<
    (int, (int, int)),
>
    decreases upto,
{
    if upto <= 0 {
        None
    } else {
        let row = upto - 1;
        let l = lines[row];
        match line_shape(l) {
            LineShape::Cmd { args, .. } => if crate::complete::binding_command(line_cmd_name(l))
                && args.len() > 0 && l.subrange(args[0].0, args[0].1) == name {
                Some((row, args[0]))
            } else {
                last_binding(lines, name, row)
            },
            _ => last_binding(lines, name, row),
        }
    }
}

/// Finds the nearest binding of `name` at or before the given row: the
/// place definition mode points at for a locally scoped name.
pub fn find_local_definition(source: &[String], name: &str, before_row: usize) -> (r: Option<
    SrcSpan,
>)
    requires
        before_row <= source@.len(),
    ensures
        ({
            let found = last_binding(lines_view(source@), name@, before_row as int);
            &&& r is Some <==> found is Some
            &&& r matches Some(sp) ==> (found matches Some((row, span)) && sp == SrcSpan {
                start: SrcPoint { row: row as usize, column: span.0 as usize },
                end: SrcPoint { row: row as usize, column: span.1 as usize },
            })
        }),
{
    let ghost lines = lines_view(source@);
    let mut row: usize = before_row;
    while row > 0
        invariant
            row <= before_row <= source@.len(),
            lines == lines_view(source@),
            last_binding(lines, name@, before_row as int) == last_binding(lines, name@, row as int),
        decreases row,
    {
        let r0 = row - 1;
        let text = &source[r0];
        let _n = text.as_str().unicode_len();
        proof {
            assert(lines[r0 as int] == text@);
        }
        match crate::grammar::parse_line(text.as_str(), r0) {
            LineParse::Command(inv) => {
                let is_binding = crate::strutil::str_eq(inv.name.as_str(), "set")
                    || crate::strutil::str_eq(inv.name.as_str(), "function")
                    || crate::strutil::str_eq(inv.name.as_str(), "macro")
                    || crate::strutil::str_eq(inv.name.as_str(), "option");
                if is_binding && inv.args.len() > 0 && crate::strutil::str_eq(
                    inv.args[0].text.as_str(),
                    name,
                ) {
                    return Some(inv.args[0].span);
                }
            },
            _ => {},
        }
        row = r0;
    }
    None
}

/// The spans, in row order, of every argument token equal to `name` —
/// every usage site references mode collects.
pub open spec fn name_occurrences(lines: Seq<Seq<char>>, name: Seq<char>, n: int) -> Seq<
    (int, (int, int)),
>
    decreases n,
{
    if n <= 0 {
        Seq::empty()
    } else {
        name_occurrences(lines, name, n - 1) + row_occurrences(lines[n - 1], name, n - 1)
    }
}

/// The spans of the arguments equal to `name` on one row.
pub open spec fn row_occurrences(l: Seq<char>, name: Seq<char>, row: int) -> Seq<
    (int, (int, int)),
> {
    match line_shape(l) {
        LineShape::Cmd { args, .. } => Seq::new(args.len(), |k: int| (row, args[k])).filter(
            |e: (int, (int, int))| l.subrange((e.1).0, (e.1).1) == name,
        ),
        _ => Seq::empty(),
    }
}

/// Collects every usage site of `name` in the document: the spans of
/// all argument tokens holding exactly that text, in order.
pub fn find_references(source: &[String], name: &str) -> (r: Vec<SrcSpan>)
    ensures
        ({
            let occ = name_occurrences(lines_view(source@), name@, source@.len() as int);
            &&& r@.len() == occ.len()
            &&& forall|k: int|
                0 <= k < occ.len() ==> #[trigger] r@[k] == span_for(
                    occ[k].0,
                    (occ[k].1).0,
                    (occ[k].1).1,
                )
        }),
{
    let ghost lines = lines_view(source@);
    let mut r: Vec<SrcSpan> = Vec::new();
    let mut row: usize = 0;
    while row < source.len()
        invariant
            row <= source@.len(),
            lines == lines_view(source@),
            ({
                let occ = name_occurrences(lines, name@, row as int);
                &&& r@.len() == occ.len()
                &&& forall|k: int|
                    0 <= k < occ.len() ==> #[trigger] r@[k] == span_for(
                        occ[k].0,
                        (occ[k].1).0,
                        (occ[k].1).1,
                    )
            }),
        decreases source@.len() - row,
    {
        let text = &source[row];
        let _n = text.as_str().unicode_len();
        proof {
            assert(lines[row as int] == text@);
        }
        match crate::grammar::parse_line(text.as_str(), row) {
            LineParse::Command(inv) => {
                let ghost shape = (match line_shape(text@) {
                    LineShape::Cmd { args, .. } => args,
                    _ => Seq::empty(),
                });
                let ghost base = Seq::new(shape.len(), |k: int| (row as int, shape[k]));
                let ghost pred = |e: (int, (int, int))| text@.subrange((e.1).0, (e.1).1) == name@;
                let mut k: usize = 0;
                while k < inv.args.len()
                    invariant
                        k <= inv.args@.len(),
                        lines == lines_view(source@),
                        row < source@.len(),
                        lines[row as int] == text@,
                        crate::grammar::inv_matches_line(inv, text@, row as int),
                        shape == (match line_shape(text@) {
                            LineShape::Cmd { args, .. } => args,
                            _ => Seq::<(int, int)>::empty(),
                        }),
                        inv.args@.len() == shape.len(),
                        base == Seq::new(shape.len(), |m: int| (row as int, shape[m])),
                        pred == (|e: (int, (int, int))| text@.subrange((e.1).0, (e.1).1) == name@),
                        ({
                            let occ = name_occurrences(lines, name@, row as int) + base.subrange(
                                0,
                                k as int,
                            ).filter(pred);
                            &&& r@.len() == occ.len()
                            &&& forall|m: int|
                                0 <= m < occ.len() ==> #[trigger] r@[m] == span_for(
                                    occ[m].0,
                                    (occ[m].1).0,
                                    (occ[m].1).1,
                                )
                        }),
                    decreases inv.args@.len() - k,
                {
                    proof {
                        crate::strutil::lemma_filter_snoc(base.subrange(0, k + 1), pred);
                        assert(base.subrange(0, k + 1).drop_last() =~= base.subrange(0, k as int));
                        assert(base.subrange(0, k + 1).last() == (row as int, shape[k as int]));
                    }
                    if crate::strutil::str_eq(inv.args[k].text.as_str(), name) {
                        r.push(inv.args[k].span);
                        proof {
                            assert(text@.subrange(shape[k as int].0, shape[k as int].1) == name@);
                        }
                    } else {
                        proof {
                            assert(text@.subrange(shape[k as int].0, shape[k as int].1) != name@);
                        }
                    }
                    k += 1;
                }
                proof {
                    assert(base.subrange(0, inv.args@.len() as int) =~= base);
                    assert(name_occurrences(lines, name@, row + 1) == name_occurrences(
                        lines,
                        name@,
                        row as int,
                    ) + base.filter(pred));
                }
            },
            _ => {
                proof {
                    assert(name_occurrences(lines, name@, row + 1) =~= name_occurrences(
                        lines,
                        name@,
                        row as int,
                    ));
                }
            },
        }
        row += 1;
    }
    r
}

/// The documentation of the first catalog candidate labelled `word`.
pub open spec fn first_doc(entries: Seq<CompletionEntry>, word: Seq<char>) -> Option<Seq<char>>
    decreases entries.len(),
{
    if entries.len() == 0 {
        None
    } else if entries[0].label@ == word {
        opt_string_view(entries[0].documentation)
    } else {
        first_doc(entries.drop_first(), word)
    }
}

/// Looks a word up among candidates: the documentation of the first
/// one carrying it as its label.
pub fn doc_for_word(entries: &Vec<CompletionEntry>, word: &str) -> (r: Option<String>)
    ensures
        ({
            let found = first_doc(entries@, word@);
            &&& r is Some <==> found is Some
            &&& r matches Some(d) ==> found == Some(d@)
        }),
{
    proof {
        assert(entries@.subrange(0, entries@.len() as int) =~= entries@);
    }
    let mut i: usize = 0;
    while i < entries.len()
        invariant
            i <= entries@.len(),
            first_doc(entries@, word@) == first_doc(entries@.subrange(i as int, entries@.len() as int), word@),
        decreases entries@.len() - i,
    {
        proof {
            assert(entries@.subrange(i as int, entries@.len() as int).drop_first()
                =~= entries@.subrange(i + 1, entries@.len() as int));
            assert(entries@.subrange(i as int, entries@.len() as int)[0] == entries@[i as int]);
        }
        if crate::strutil::str_eq(entries[i].label.as_str(), word) {
            match &entries[i].documentation {
                Some(d) => {
                    return Some(d.clone());
                },
                None => {
                    return None;
                },
            }
        }
        i += 1;
    }
    proof {
        assert(entries@.subrange(entries@.len() as int, entries@.len() as int).len() == 0);
    }
    None
}

/// The hover answer for a cursor position: the documentation of the
/// first catalog candidate labelled like the argument token under the
/// cursor; none where nothing documented stands there.
pub fn get_cmake_doc(
    source: &[String],
    position: DocPosition,
    entries: &Vec<CompletionEntry>,
) -> (r: Option<String>)
    ensures
        ({
            let lines = lines_view(source@);
            match classified_word(lines, position.line as int, position.character as int) {
                Some(word) => {
                    &&& r is Some <==> first_doc(entries@, word) is Some
                    &&& r matches Some(d) ==> first_doc(entries@, word) == Some(d@)
                },
                None => r is None,
            }
        }),
{
    match classify_position(source, position) {
        JumpKind::PackageRef(w) | JumpKind::SubdirRef(w) | JumpKind::Local(w) => doc_for_word(
            entries,
            w.as_str(),
        ),
        JumpKind::NothingAt => None,
    }
}

/// The argument token under the cursor, whatever invocation encloses
/// it.
pub open spec fn classified_word(lines: Seq<Seq<char>>, line: int, col: int) -> Option<Seq<char>> {
    if 0 <= line < lines.len() && arg_span_at(lines[line], col) is Some {
        let span = arg_span_at(lines[line], col).unwrap();
        Some(lines[line].subrange(span.0, span.1))
    } else {
        None
    }
}

/// The document's symbols: each binding construct's bound name with
/// the span of that name.
pub open spec fn local_def_items(lines: Seq<Seq<char>>, n: int) -> Seq<(Seq<char>, SrcSpan)>
    decreases n,
{
    if n <= 0 {
        Seq::empty()
    } else {
        local_def_items(lines, n - 1) + ({
            let l = lines[n - 1];
            match line_shape(l) {
                LineShape::Cmd { args, .. } => if crate::complete::binding_command(line_cmd_name(l))
                    && args.len() > 0 {
                    seq![
                        (
                            l.subrange(args[0].0, args[0].1),
                            span_for(n - 1, args[0].0, args[0].1),
                        ),
                    ]
                } else {
                    Seq::empty()
                },
                _ => Seq::empty(),
            }
        })
    }
}

/// Lists the document's symbols: one per binding construct, in row
/// order, named by the bound name and placed at its span.
pub fn document_symbols(source: &[String]) -> (r: Vec<(String, SrcSpan)>)
    ensures
        r@.map_values(|p: (String, SrcSpan)| (p.0@, p.1)) == local_def_items(
            lines_view(source@),
            source@.len() as int,
        ),
{
    let ghost lines = lines_view(source@);
    let mut r: Vec<(String, SrcSpan)> = Vec::new();
    let mut row: usize = 0;
    while row < source.len()
        invariant
            row <= source@.len(),
            lines == lines_view(source@),
            r@.map_values(|p: (String, SrcSpan)| (p.0@, p.1)) == local_def_items(
                lines,
                row as int,
            ),
        decreases source@.len() - row,
    {
        let text = &source[row];
        let _n = text.as_str().unicode_len();
        proof {
            assert(lines[row as int] == text@);
        }
        match crate::grammar::parse_line(text.as_str(), row) {
            LineParse::Command(inv) => {
                let is_binding = crate::strutil::str_eq(inv.name.as_str(), "set")
                    || crate::strutil::str_eq(inv.name.as_str(), "function")
                    || crate::strutil::str_eq(inv.name.as_str(), "macro")
                    || crate::strutil::str_eq(inv.name.as_str(), "option");
                proof {
                    assert(is_binding == crate::complete::binding_command(line_cmd_name(text@)));
                }
                if is_binding && inv.args.len() > 0 {
                    let ghost rprev = r@;
                    r.push((inv.args[0].text.clone(), inv.args[0].span));
                    proof {
                        rprev.lemma_push_map_commute(
                            |p: (String, SrcSpan)| (p.0@, p.1),
                            r@.last(),
                        );
                        assert(r@.map_values(|p: (String, SrcSpan)| (p.0@, p.1))
                            =~~= local_def_items(lines, row + 1));
                    }
                } else {
                    proof {
                        assert(r@.map_values(|p: (String, SrcSpan)| (p.0@, p.1))
                            =~~= local_def_items(lines, row + 1));
                    }
                }
            },
            _ => {
                proof {
                    assert(r@.map_values(|p: (String, SrcSpan)| (p.0@, p.1))
                        =~~= local_def_items(lines, row + 1));
                }
            },
        }
        row += 1;
    }
    r
}

/// The protocol range of the argument token under the cursor — the
/// origin selection that definition mode filters against; none where
/// the cursor is on no token.
pub fn position_token_range(source: &[String], position: DocPosition) -> (r: Option<DocRange>)
    requires
        forall|k: int| 0 <= k < source@.len() ==> (#[trigger] source@[k])@.len() < u32::MAX,
    ensures
        ({
            let lines = lines_view(source@);
            let line = position.line as int;
            let col = position.character as int;
            if 0 <= line < lines.len() && arg_span_at(lines[line], col) is Some {
                let span = arg_span_at(lines[line], col).unwrap();
                r == Some(
                    DocRange {
                        start: DocPosition { line: position.line, character: span.0 as u32 },
                        end: DocPosition { line: position.line, character: span.1 as u32 },
                    },
                )
            } else {
                r is None
            }
        }),
{
    let ghost lines = lines_view(source@);
    let row = position.line as usize;
    let col = position.character as usize;
    if row >= source.len() {
        return None;
    }
    let text = &source[row];
    let _n = text.as_str().unicode_len();
    proof {
        assert(lines[row as int] == text@);
        crate::grammar::lemma_line_args_wf(text@);
    }
    match crate::grammar::parse_line(text.as_str(), row) {
        LineParse::Command(inv) => {
            let ghost sargs = (match line_shape(text@) {
                LineShape::Cmd { args, .. } => args,
                _ => Seq::empty(),
            });
            let mut k: usize = 0;
            while k < inv.args.len()
                invariant
                    k <= inv.args@.len(),
                    lines == lines_view(source@),
                    row < source@.len(),
                    col == position.character,
                    row == position.line,
                    lines[row as int] == text@,
                    text@.len() < u32::MAX,
                    crate::grammar::inv_matches_line(inv, text@, row as int),
                    sargs == (match line_shape(text@) {
                        LineShape::Cmd { args, .. } => args,
                        _ => Seq::<(int, int)>::empty(),
                    }),
                    inv.args@.len() == sargs.len(),
                    forall|k1: int|
                        0 <= k1 < sargs.len() ==> 0 <= (#[trigger] sargs[k1]).0 < sargs[k1].1
                            <= text@.len(),
                    forall|k1: int, k2: int|
                        0 <= k1 < k2 < sargs.len() ==> (#[trigger] sargs[k1]).1 <= (
                        #[trigger] sargs[k2]).0,
                    forall|m: int|
                        0 <= m < k ==> !((#[trigger] sargs[m]).0 <= col < sargs[m].1),
                decreases inv.args@.len() - k,
            {
                let a = &inv.args[k];
                proof {
                    assert(inv.args@[k as int].span == span_for(
                        row as int,
                        sargs[k as int].0,
                        sargs[k as int].1,
                    ));
                    assert(0 <= sargs[k as int].0 < sargs[k as int].1 <= text@.len()
                        < u32::MAX);
                    assert(inv.args@[k as int].span.start.column as int == sargs[k as int].0);
                    assert(inv.args@[k as int].span.end.column as int == sargs[k as int].1);
                }
                if a.span.start.column <= col && col < a.span.end.column {
                    proof {
                        assert(sargs[k as int].0 <= col < sargs[k as int].1);
                        let w = choose|w: int|
                            0 <= w < sargs.len() && (#[trigger] sargs[w]).0 <= col < sargs[w].1;
                        if w < k as int {
                            assert(sargs[w].1 <= sargs[k as int].0);
                            assert(false);
                        } else if w > k as int {
                            assert(sargs[k as int].1 <= sargs[w].0);
                            assert(false);
                        }
                        assert(arg_span_at(text@, col as int) == Some(sargs[k as int]));
                    }
                    return Some(
                        DocRange {
                            start: DocPosition {
                                line: position.line,
                                character: a.span.start.column as u32,
                            },
                            end: DocPosition {
                                line: position.line,
                                character: a.span.end.column as u32,
                            },
                        },
                    );
                }
                k += 1;
            }
            proof {
                if arg_span_at(text@, col as int) is Some {
                    let w = choose|w: int|
                        0 <= w < sargs.len() && (#[trigger] sargs[w]).0 <= col < sargs[w].1;
                    assert(!(sargs[w].0 <= col < sargs[w].1));
                }
            }
            None
        },
        _ => None,
    }
}

} // verus!
