//! The command-invocation grammar of the build-description language.
//!
//! A document is a sequence of lines; a line either carries one command
//! invocation `name(arg arg ...)`, carries none (blank, comment, or other
//! text), or opens an invocation whose closing parenthesis is missing on
//! that line, which the diagnostics engine reports as a structural issue.
//! The syntax tree is a pure function of the text and is rebuilt on
//! demand, never cached across requests.

use crate::utils::{SrcPoint, SrcSpan};
use vstd::prelude::*;
use vstd::string::*;

verus! {

/// A space or a tab.
pub open spec fn is_space(c: char) -> bool {
    c == ' ' || c == '\t'
}

/// A character that may open a command name.
pub open spec fn ident_start(c: char) -> bool {
    ('a' <= c && c <= 'z') || ('A' <= c && c <= 'Z') || c == '_'
}

/// A character that may continue a command name.
pub open spec fn ident_char(c: char) -> bool {
    ident_start(c) || ('0' <= c && c <= '9')
}

/// A character that may stand inside an argument token.
pub open spec fn token_char(c: char) -> bool {
    !is_space(c) && c != '(' && c != ')'
}

/// The first index at or after `i` whose character fails `p`, or the
/// length of `s`.
pub open spec fn scan_while(s: Seq<char>, i: int, p: spec_fn(char) -> bool) -> int
    decreases s.len() - i,
{
    if i < 0 || i >= s.len() {
        i
    } else if p(s[i]) {
        scan_while(s, i + 1, p)
    } else {
        i
    }
}

pub proof fn lemma_scan_while(s: Seq<char>, i: int, p: spec_fn(char) -> bool)
    requires
        0 <= i <= s.len(),
    ensures
        i <= scan_while(s, i, p) <= s.len(),
        forall|k: int| i <= k < scan_while(s, i, p) ==> p(s[k]),
        scan_while(s, i, p) < s.len() ==> !p(s[scan_while(s, i, p)]),
    decreases s.len() - i,
{
    if i < s.len() && p(s[i]) {
        lemma_scan_while(s, i + 1, p);
    }
}

/// The argument spans of an invocation read from index `i`, which must
/// stand just after the opening parenthesis: `Some` of the `(start, end)`
/// span of each argument and of the index of the closing parenthesis, or
/// `None` where the line ends, or a nested parenthesis opens, before the
/// invocation closes.
pub open spec fn arg_spans(s: Seq<char>, i: int) -> Option<(Seq<(int, int)>, int)>
    decreases s.len() - i,
        when 0 <= i <= s.len()
        via arg_spans_decreases
{
    let j = scan_while(s, i, |c: char| is_space(c));
    if j == s.len() {
        None
    } else if s[j] == ')' {
        Some((Seq::<(int, int)>::empty(), j))
    } else if s[j] == '(' {
        None
    } else {
        let e = scan_while(s, j, |c: char| token_char(c));
        match arg_spans(s, e) {
            None => None,
            Some((rest, close)) => Some((seq![(j, e)] + rest, close)),
        }
    }
}

#[via_fn]
proof fn arg_spans_decreases(s: Seq<char>, i: int) {
    lemma_scan_while(s, i, |c: char| is_space(c));
    let j = scan_while(s, i, |c: char| is_space(c));
    if j < s.len() && s[j] != ')' && s[j] != '(' {
        lemma_scan_while(s, j, |c: char| token_char(c));
        assert(token_char(s[j]));
        assert(scan_while(s, j, |c: char| token_char(c)) == scan_while(
            s,
            j + 1,
            |c: char| token_char(c),
        ));
        lemma_scan_while(s, j + 1, |c: char| token_char(c));
    }
}

pub proof fn lemma_arg_spans_wf(s: Seq<char>, i: int)
    requires
        0 <= i <= s.len(),
    ensures
        arg_spans(s, i) matches Some((spans, close)) ==> {
            &&& i <= close < s.len()
            &&& s[close] == ')'
            &&& forall|k: int|
                0 <= k < spans.len() ==> i <= #[trigger] spans[k].0 < spans[k].1 <= close
        },
    decreases s.len() - i,
{
    let j = scan_while(s, i, |c: char| is_space(c));
    lemma_scan_while(s, i, |c: char| is_space(c));
    if j < s.len() && s[j] != ')' && s[j] != '(' {
        let e = scan_while(s, j, |c: char| token_char(c));
        lemma_scan_while(s, j, |c: char| token_char(c));
        assert(token_char(s[j]));
        assert(scan_while(s, j, |c: char| token_char(c)) == scan_while(
            s,
            j + 1,
            |c: char| token_char(c),
        ));
        lemma_scan_while(s, j + 1, |c: char| token_char(c));
        lemma_arg_spans_wf(s, e);
    }
}

pub proof fn lemma_arg_spans_ordered(s: Seq<char>, i: int)
    requires
        0 <= i <= s.len(),
    ensures
        arg_spans(s, i) matches Some((spans, close)) ==> forall|k1: int, k2: int|
            0 <= k1 < k2 < spans.len() ==> (#[trigger] spans[k1]).1 <= (#[trigger] spans[k2]).0,
    decreases s.len() - i,
{
    let j = scan_while(s, i, |c: char| is_space(c));
    lemma_scan_while(s, i, |c: char| is_space(c));
    if j < s.len() && s[j] != ')' && s[j] != '(' {
        let e = scan_while(s, j, |c: char| token_char(c));
        lemma_scan_while(s, j, |c: char| token_char(c));
        assert(token_char(s[j]));
        assert(scan_while(s, j, |c: char| token_char(c)) == scan_while(
            s,
            j + 1,
            |c: char| token_char(c),
        ));
        lemma_scan_while(s, j + 1, |c: char| token_char(c));
        lemma_arg_spans_ordered(s, e);
        lemma_arg_spans_wf(s, e);
        if arg_spans(s, i) is Some {
            let (spans, close) = arg_spans(s, i).unwrap();
            let (rest, _c) = arg_spans(s, e).unwrap();
            assert forall|k1: int, k2: int| 0 <= k1 < k2 < spans.len() implies (
            #[trigger] spans[k1]).1 <= (#[trigger] spans[k2]).0 by {
                if k1 == 0 {
                    assert(spans[0] == (j, e));
                    assert(spans[k2] == rest[k2 - 1]);
                    assert(e <= rest[k2 - 1].0);
                } else {
                    assert(spans[k1] == rest[k1 - 1]);
                    assert(spans[k2] == rest[k2 - 1]);
                }
            }
        }
    }
}

/// The argument spans of a line's invocation lie inside the line, in
/// order and disjoint.
pub proof fn lemma_line_args_wf(s: Seq<char>)
    ensures
        line_shape(s) matches LineShape::Cmd { args, close, .. } ==> {
            &&& close < s.len()
            &&& (forall|k: int|
                0 <= k < args.len() ==> 0 <= (#[trigger] args[k]).0 < args[k].1 <= close)
            &&& (forall|k1: int, k2: int|
                0 <= k1 < k2 < args.len() ==> (#[trigger] args[k1]).1 <= (#[trigger] args[k2]).0)
        },
{
    let a = scan_while(s, 0, |c: char| is_space(c));
    lemma_scan_while(s, 0, |c: char| is_space(c));
    if !(a == s.len() || !ident_start(s[a])) {
        let b = scan_while(s, a, |c: char| ident_char(c));
        lemma_scan_while(s, a, |c: char| ident_char(c));
        let o = scan_while(s, b, |c: char| is_space(c));
        lemma_scan_while(s, b, |c: char| is_space(c));
        if !(o == s.len() || s[o] != '(') {
            lemma_arg_spans_wf(s, o + 1);
            lemma_arg_spans_ordered(s, o + 1);
        }
    }
}

/// What one line of a document holds.
pub enum LineShape {
    /// No invocation on this line.
    NoCmd,
    /// An invocation begun but not closed on its line.
    Unclosed,
    /// One whole invocation, given by the indices of its parts.
    Cmd { name_start: int, name_end: int, open: int, args: Seq<(int, int)>, close: int },
}

/// The shape of one line: where a command name, its parentheses, and its
/// arguments stand, if the line carries an invocation at all.
pub open spec fn line_shape(s: Seq<char>) -> LineShape {
    let a = scan_while(s, 0, |c: char| is_space(c));
    if a == s.len() || !ident_start(s[a]) {
        LineShape::NoCmd
    } else {
        let b = scan_while(s, a, |c: char| ident_char(c));
        let o = scan_while(s, b, |c: char| is_space(c));
        if o == s.len() || s[o] != '(' {
            LineShape::NoCmd
        } else {
            match arg_spans(s, o + 1) {
                None => LineShape::Unclosed,
                Some((spans, close)) => LineShape::Cmd {
                    name_start: a,
                    name_end: b,
                    open: o,
                    args: spans,
                    close: close,
                },
            }
        }
    }
}

/// One argument of an invocation: its text and the span it covers.
pub struct Argument {
    pub text: String,
    pub span: SrcSpan,
}

/// One command invocation, wholly on one line.
pub struct Invocation {
    pub name: String,
    pub name_span: SrcSpan,
    pub args: Vec<Argument>,
    /// Column of the opening parenthesis.
    pub open_column: usize,
    /// Column of the closing parenthesis.
    pub close_column: usize,
    pub row: usize,
}

/// How the parser read one line.
pub enum LineParse {
    NoCommand,
    Command(Invocation),
    Unclosed,
}

/// Whether `inv` is exactly what `line_shape` finds in line `row` of the
/// document, its texts read back from that line.
pub open spec fn inv_matches_line(inv: Invocation, s: Seq<char>, row: int) -> bool {
    line_shape(s) matches LineShape::Cmd { name_start, name_end, open, args, close } && {
        &&& inv.row == row
        &&& inv.name@ == s.subrange(name_start, name_end)
        &&& inv.name_span == SrcSpan {
            start: SrcPoint { row: row as usize, column: name_start as usize },
            end: SrcPoint { row: row as usize, column: name_end as usize },
        }
        &&& inv.open_column == open
        &&& inv.close_column == close
        &&& inv.args@.len() == args.len()
        &&& forall|k: int|
            0 <= k < args.len() ==> {
                &&& (#[trigger] inv.args@[k]).text@ == s.subrange(args[k].0, args[k].1)
                &&& inv.args@[k].span == SrcSpan {
                    start: SrcPoint { row: row as usize, column: args[k].0 as usize },
                    end: SrcPoint { row: row as usize, column: args[k].1 as usize },
                }
            }
    }
}

/// Reads one line: the invocation it carries, none, or an unclosed one.
pub fn parse_line(line: &str, row: usize) -> (r: LineParse)
    requires
        line@.len() <= usize::MAX,
    ensures
        r is NoCommand <==> line_shape(line@) is NoCmd,
        r is Unclosed <==> line_shape(line@) is Unclosed,
        r matches LineParse::Command(inv) ==> inv_matches_line(inv, line@, row as int),
{
    let s = crate::strutil::str_to_chars(line);
    let n = s.len();
    let ghost sv = line@;

    let a = scan_spaces(&s, 0);
    if a == n || !is_ident_start(s[a]) {
        return LineParse::NoCommand;
    }
    let b = scan_ident(&s, a);
    let o = scan_spaces(&s, b);
    if o == n || s[o] != '(' {
        return LineParse::NoCommand;
    }

    let mut args: Vec<Argument> = Vec::new();
    let mut i: usize = o + 1;
    let ghost whole = arg_spans(sv, (o + 1) as int);
    proof {
        lemma_arg_spans_wf(sv, (o + 1) as int);
        lemma_scan_while(sv, a as int, |c: char| ident_char(c));
    }
    loop
        invariant
            a <= b <= o,
            o + 1 <= i <= n,
            n == sv.len() <= usize::MAX,
            s@ == sv,
            sv == line@,
            a == scan_while(sv, 0, |c: char| is_space(c)),
            a < n && ident_start(sv[a as int]),
            b == scan_while(sv, a as int, |c: char| ident_char(c)),
            o == scan_while(sv, b as int, |c: char| is_space(c)),
            o < n && sv[o as int] == '(',
            whole == arg_spans(sv, (o + 1) as int),
            whole matches Some((spans, close)) ==> {
                &&& arg_spans(sv, i as int) matches Some((rest, close2)) && close2 == close
                    && spans == spans.subrange(0, args@.len() as int) + rest
                &&& args@.len() <= spans.len()
            },
            whole is None ==> arg_spans(sv, i as int) is None,
            whole matches Some((spans, close)) ==> {
                forall|k: int|
                    0 <= k < args@.len() ==> {
                        &&& (#[trigger] args@[k]).text@ == sv.subrange(spans[k].0, spans[k].1)
                        &&& args@[k].span == SrcSpan {
                            start: SrcPoint { row: row, column: spans[k].0 as usize },
                            end: SrcPoint { row: row, column: spans[k].1 as usize },
                        }
                    }
            },
        decreases n - i,
    {
        let j = scan_spaces(&s, i);
        if j == n {
            proof {
                assert(arg_spans(sv, i as int) is None);
                assert(whole is None);
                assert(line_shape(sv) is Unclosed);
            }
            return LineParse::Unclosed;
        }
        if s[j] == ')' {
            proof {
                assert(arg_spans(sv, i as int) == Some((Seq::<(int, int)>::empty(), j as int)));
                assert(whole is Some);
                let (spans, close) = whole.unwrap();
                let (rest, _c2) = arg_spans(sv, i as int).unwrap();
                assert(spans =~= spans.subrange(0, args@.len() as int));
                assert(args@.len() == spans.len());
                assert(close == j as int);
                assert(line_shape(sv) == LineShape::Cmd {
                    name_start: a as int,
                    name_end: b as int,
                    open: o as int,
                    args: spans,
                    close: close,
                });
            }
            let name = span_string(&s, a, b);
            let r = LineParse::Command(Invocation {
                name,
                name_span: SrcSpan {
                    start: SrcPoint { row, column: a },
                    end: SrcPoint { row, column: b },
                },
                args,
                open_column: o,
                close_column: j,
                row,
            });
            proof {
                assert(r matches LineParse::Command(inv) ==> inv_matches_line(
                    inv,
                    sv,
                    row as int,
                ));
            }
            return r;
        }
        if s[j] == '(' {
            proof {
                assert(arg_spans(sv, i as int) is None);
                assert(whole is None);
                assert(line_shape(sv) is Unclosed);
            }
            return LineParse::Unclosed;
        }
        let e = scan_token(&s, j);
        proof {
            assert(token_char(sv[j as int]));
            assert(scan_while(sv, j as int, |c: char| token_char(c)) == scan_while(
                sv,
                j + 1,
                |c: char| token_char(c),
            ));
            lemma_scan_while(sv, j + 1, |c: char| token_char(c));
            if whole is Some {
                let (spans, close) = whole.unwrap();
                let (rest, _c2) = arg_spans(sv, i as int).unwrap();
                assert(arg_spans(sv, e as int) is Some);
                let (rest2, _c3) = arg_spans(sv, e as int).unwrap();
                assert(rest == seq![(j as int, e as int)] + rest2);
                assert(rest[0] == (j as int, e as int));
                assert(spans == spans.subrange(0, args@.len() as int) + rest);
                assert(spans[args@.len() as int] == (j as int, e as int));
                assert(spans =~= spans.subrange(0, args@.len() as int + 1) + rest2);
            } else {
                assert(arg_spans(sv, e as int) is None);
            }
        }
        let text = span_string(&s, j, e);
        args.push(Argument {
            text,
            span: SrcSpan {
                start: SrcPoint { row, column: j },
                end: SrcPoint { row, column: e },
            },
        });
        i = e;
    }
}

/// The length of the span list inside an optional parse result.
pub open spec fn spans_len(o: Option<(Seq<(int, int)>, int)>) -> nat {
    match o {
        Some((spans, _)) => spans.len(),
        None => 0,
    }
}

/// First index at or after `from` that is not a space or tab.
fn scan_spaces(s: &Vec<char>, from: usize) -> (r: usize)
    requires
        from <= s@.len(),
    ensures
        r == scan_while(s@, from as int, |c: char| is_space(c)),
        from <= r <= s@.len(),
        r < s@.len() ==> !is_space(s@[r as int]),
        forall|k: int| from <= k < r ==> is_space(s@[k]),
{
    proof {
        lemma_scan_while(s@, from as int, |c: char| is_space(c));
    }
    let mut i = from;
    while i < s.len() && (s[i] == ' ' || s[i] == '\t')
        invariant
            from <= i <= s@.len(),
            scan_while(s@, from as int, |c: char| is_space(c)) == scan_while(
                s@,
                i as int,
                |c: char| is_space(c),
            ),
        decreases s@.len() - i,
    {
        i += 1;
    }
    i
}

/// First index at or after `from` that cannot continue a command name.
fn scan_ident(s: &Vec<char>, from: usize) -> (r: usize)
    requires
        from <= s@.len(),
    ensures
        r == scan_while(s@, from as int, |c: char| ident_char(c)),
        from <= r <= s@.len(),
        r < s@.len() ==> !ident_char(s@[r as int]),
        forall|k: int| from <= k < r ==> ident_char(s@[k]),
{
    proof {
        lemma_scan_while(s@, from as int, |c: char| ident_char(c));
    }
    let mut i = from;
    while i < s.len() && is_ident_char(s[i])
        invariant
            from <= i <= s@.len(),
            scan_while(s@, from as int, |c: char| ident_char(c)) == scan_while(
                s@,
                i as int,
                |c: char| ident_char(c),
            ),
        decreases s@.len() - i,
    {
        i += 1;
    }
    i
}

/// First index at or after `from` that cannot stand inside a token.
fn scan_token(s: &Vec<char>, from: usize) -> (r: usize)
    requires
        from <= s@.len(),
    ensures
        r == scan_while(s@, from as int, |c: char| token_char(c)),
        from <= r <= s@.len(),
        r < s@.len() ==> !token_char(s@[r as int]),
        forall|k: int| from <= k < r ==> token_char(s@[k]),
{
    proof {
        lemma_scan_while(s@, from as int, |c: char| token_char(c));
    }
    let mut i = from;
    while i < s.len() && !(s[i] == ' ' || s[i] == '\t' || s[i] == '(' || s[i] == ')')
        invariant
            from <= i <= s@.len(),
            scan_while(s@, from as int, |c: char| token_char(c)) == scan_while(
                s@,
                i as int,
                |c: char| token_char(c),
            ),
        decreases s@.len() - i,
    {
        i += 1;
    }
    i
}

fn is_ident_start(c: char) -> (r: bool)
    ensures
        r == ident_start(c),
{
    ('a' <= c && c <= 'z') || ('A' <= c && c <= 'Z') || c == '_'
}

fn is_ident_char(c: char) -> (r: bool)
    ensures
        r == ident_char(c),
{
    is_ident_start(c) || ('0' <= c && c <= '9')
}

/// The string of characters `from .. to` of `s`.
fn span_string(s: &Vec<char>, from: usize, to: usize) -> (r: String)
    requires
        from <= to <= s@.len(),
    ensures
        r@ == s@.subrange(from as int, to as int),
{
    let mut out: Vec<char> = Vec::new();
    let mut i = from;
    while i < to
        invariant
            from <= i <= to <= s@.len(),
            out@ == s@.subrange(from as int, i as int),
        decreases to - i,
    {
        out.push(s[i]);
        i += 1;
    }
    proof {
        assert(out@ =~= s@.subrange(from as int, to as int));
    }
    crate::strutil::chars_to_string(&out)
}

} // verus!
