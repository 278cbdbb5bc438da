//! The completion engine: the once-per-process built-in catalog cell,
//! the pairing of the external help text into keyed entries, snippet
//! rendering for command signatures, and the merge of completion
//! sources for a cursor position.

use crate::protocol::{CompletionEntry, CompletionKind, InsertFormat};
use vstd::prelude::*;
use vstd::string::*;

verus! {

// ---------------------------------------------------------------------
// The built-in catalog cell
// ---------------------------------------------------------------------

/// The static built-in catalog: command, variable and module
/// candidates scraped once from the external tool's help output.
pub struct BuiltinCatalog {
    pub commands: Vec<CompletionEntry>,
    pub variables: Vec<CompletionEntry>,
    pub modules: Vec<CompletionEntry>,
}

/// The catalog is computed at most once per process: it is unfetched,
/// then either available or — after a failed fetch — permanently
/// unavailable for the rest of the session. No retry is ever attempted.
pub enum BuiltinCatalogCell {
    Unfetched,
    Available(BuiltinCatalog),
    Unavailable,
}

impl BuiltinCatalogCell {
    /// A cell that has not been computed yet.
    pub fn new() -> (r: BuiltinCatalogCell)
        ensures
            r is Unfetched,
    {
        BuiltinCatalogCell::Unfetched
    }

    /// Whether a fetch is owed: only before the first and only attempt.
    pub fn needs_fetch(&self) -> (r: bool)
        ensures
            r <==> *self is Unfetched,
    {
        match self {
            BuiltinCatalogCell::Unfetched => true,
            _ => false,
        }
    }

    /// Records the one fetch attempt's outcome. A failure is stored as
    /// permanently unavailable; nothing ever moves the cell back to
    /// unfetched, so no retry can happen.
    pub fn install(&mut self, outcome: Option<BuiltinCatalog>)
        requires
            *old(self) is Unfetched,
        ensures
            outcome matches Some(c) ==> (*final(self) matches BuiltinCatalogCell::Available(held)
                && held == c),
            outcome is None ==> *final(self) is Unavailable,
    {
        match outcome {
            Some(c) => {
                *self = BuiltinCatalogCell::Available(c);
            },
            None => {
                *self = BuiltinCatalogCell::Unavailable;
            },
        }
    }

    /// The catalog, where the one fetch succeeded.
    pub fn available(&self) -> (r: Option<&BuiltinCatalog>)
        ensures
            r is Some <==> *self is Available,
            r matches Some(c) ==> (*self matches BuiltinCatalogCell::Available(held) && *c
                == held),
    {
        match self {
            BuiltinCatalogCell::Available(c) => Some(c),
            _ => None,
        }
    }
}

/// After a failed fetch the cell is settled: it asks for no further
/// fetch and offers no catalog, and since only an unfetched cell can
/// take an outcome, every later read of the session's cell finds the
/// same settled state — completion simply lacks built-ins, without a
/// retry in between.
pub proof fn lemma_failed_fetch_is_permanent(cell: BuiltinCatalogCell)
    requires
        cell is Unavailable,
    ensures
        !(cell is Unfetched),
        !(cell is Available),
{
}

// ---------------------------------------------------------------------
// The external help text, paired into entries
// ---------------------------------------------------------------------

/// Whether a pattern is a valid regular expression, as regex's parser
/// decides it.
pub uninterp spec fn regex_pattern_valid(pattern: Seq<char>) -> bool;

/// What regex's find_iter returns: the successive non-overlapping
/// matches of the pattern in the text, in order. A function of the
/// pattern and the text alone.
pub uninterp spec fn regex_matches_of(pattern: Seq<char>, text: Seq<char>) -> Seq<Seq<char>>;

/// What regex's split returns: the parts of the text between the
/// successive matches, in order. A function of the pattern and the
/// text alone.
pub uninterp spec fn regex_split_of(pattern: Seq<char>, text: Seq<char>) -> Seq<Seq<char>>;

/// Relies on regex::Regex::new, which accepts exactly the valid
/// patterns, and regex::Regex::find_iter, whose matches are the
/// successive non-overlapping matches in the haystack, in order.
#[verifier::external_body]
fn regex_find_all(pattern: &str, text: &str) -> (r: Option<Vec<String>>)
    ensures
        r is Some <==> regex_pattern_valid(pattern@),
        r matches Some(v) ==> v@.map_values(|s: String| s@) == regex_matches_of(pattern@, text@),
{
    match regex::Regex::new(pattern) {
        Ok(re) => Some(re.find_iter(text).map(|m| m.as_str().to_string()).collect()),
        Err(_) => None,
    }
}

/// Relies on regex::Regex::new (as above) and regex::Regex::split: the
/// parts of the haystack between successive matches, in order — one
/// part more than there are matches.
#[verifier::external_body]
fn regex_split_all(pattern: &str, text: &str) -> (r: Option<Vec<String>>)
    ensures
        r is Some <==> regex_pattern_valid(pattern@),
        r matches Some(v) ==> v@.map_values(|s: String| s@) == regex_split_of(pattern@, text@)
            && v@.len() == regex_matches_of(pattern@, text@).len() + 1,
{
    match regex::Regex::new(pattern) {
        Ok(re) => Some(re.split(text).map(|s| s.to_string()).collect()),
        Err(_) => None,
    }
}

/// One keyed entry of the help text: the heading's first line, and the
/// body that follows it.
pub struct BuiltinEntry {
    pub key: String,
    pub doc: String,
}

/// The first line of a text.
pub open spec fn first_line(s: Seq<char>) -> Seq<char> {
    crate::strutil::split_at_sep(s, '\n')[0]
}

/// Pairs the help text into entries: the pattern's matches are the
/// headings, whose first lines are the keys; the text between one
/// heading and the next is that key's body. `None` exactly where the
/// pattern is invalid.
pub fn builtin_entries(pattern: &str, help_text: &str) -> (r: Option<Vec<BuiltinEntry>>)
    ensures
        r is Some <==> regex_pattern_valid(pattern@),
        r matches Some(v) ==> {
            let heads = regex_matches_of(pattern@, help_text@);
            let parts = regex_split_of(pattern@, help_text@);
            &&& v@.len() == heads.len()
            &&& forall|k: int|
                0 <= k < v@.len() ==> (#[trigger] v@[k]).key@ == first_line(heads[k])
                    && v@[k].doc@ == parts[k + 1]
        },
{
    let found = regex_find_all(pattern, help_text);
    let parts = regex_split_all(pattern, help_text);
    let heads = match found {
        Some(h) => h,
        None => {
            return None;
        },
    };
    let parts = match parts {
        Some(p) => p,
        None => {
            return None;
        },
    };
    let ghost heads_v = regex_matches_of(pattern@, help_text@);
    let ghost parts_v = regex_split_of(pattern@, help_text@);
    let mut v: Vec<BuiltinEntry> = Vec::new();
    let mut k: usize = 0;
    while k < heads.len()
        invariant
            k <= heads@.len(),
            heads@.map_values(|s: String| s@) == heads_v,
            parts@.map_values(|s: String| s@) == parts_v,
            parts@.len() == heads_v.len() + 1,
            v@.len() == k,
            forall|m: int|
                0 <= m < k ==> (#[trigger] v@[m]).key@ == first_line(heads_v[m]) && v@[m].doc@
                    == parts_v[m + 1],
        decreases heads@.len() - k,
    {
        proof {
            assert(heads@.map_values(|s: String| s@)[k as int] == heads@[k as int]@);
            assert(parts@.map_values(|s: String| s@)[k + 1] == parts@[k + 1]@);
        }
        let lines = crate::strutil::split_string(heads[k].as_str(), '\n');
        proof {
            crate::strutil::lemma_split_at_sep_nonempty(heads@[k as int]@, '\n');
            assert(lines@.map_values(|p: String| p@)[0] == lines@[0]@);
        }
        let key = lines[0].clone();
        let doc = parts[k + 1].clone();
        v.push(BuiltinEntry { key, doc });
        k += 1;
    }
    Some(v)
}

// ---------------------------------------------------------------------
// Case mapping, decimal rendering, snippet templates
// ---------------------------------------------------------------------

/// The lowercase letter for an uppercase one; any other character is
/// itself.
pub open spec fn spec_lower_char(c: char) -> char {
    match c {
        'A' => 'a',
        'B' => 'b',
        'C' => 'c',
        'D' => 'd',
        'E' => 'e',
        'F' => 'f',
        'G' => 'g',
        'H' => 'h',
        'I' => 'i',
        'J' => 'j',
        'K' => 'k',
        'L' => 'l',
        'M' => 'm',
        'N' => 'n',
        'O' => 'o',
        'P' => 'p',
        'Q' => 'q',
        'R' => 'r',
        'S' => 's',
        'T' => 't',
        'U' => 'u',
        'V' => 'v',
        'W' => 'w',
        'X' => 'x',
        'Y' => 'y',
        'Z' => 'z',
        _ => c,
    }
}

/// The uppercase letter for a lowercase one; any other character is
/// itself.
pub open spec fn spec_upper_char(c: char) -> char {
    match c {
        'a' => 'A',
        'b' => 'B',
        'c' => 'C',
        'd' => 'D',
        'e' => 'E',
        'f' => 'F',
        'g' => 'G',
        'h' => 'H',
        'i' => 'I',
        'j' => 'J',
        'k' => 'K',
        'l' => 'L',
        'm' => 'M',
        'n' => 'N',
        'o' => 'O',
        'p' => 'P',
        'q' => 'Q',
        'r' => 'R',
        's' => 'S',
        't' => 'T',
        'u' => 'U',
        'v' => 'V',
        'w' => 'W',
        'x' => 'X',
        'y' => 'Y',
        'z' => 'Z',
        _ => c,
    }
}

fn lower_char(c: char) -> (r: char)
    ensures
        r == spec_lower_char(c),
{
    match c {
        'A' => 'a',
        'B' => 'b',
        'C' => 'c',
        'D' => 'd',
        'E' => 'e',
        'F' => 'f',
        'G' => 'g',
        'H' => 'h',
        'I' => 'i',
        'J' => 'j',
        'K' => 'k',
        'L' => 'l',
        'M' => 'm',
        'N' => 'n',
        'O' => 'o',
        'P' => 'p',
        'Q' => 'q',
        'R' => 'r',
        'S' => 's',
        'T' => 't',
        'U' => 'u',
        'V' => 'v',
        'W' => 'w',
        'X' => 'x',
        'Y' => 'y',
        'Z' => 'z',
        _ => c,
    }
}

fn upper_char(c: char) -> (r: char)
    ensures
        r == spec_upper_char(c),
{
    match c {
        'a' => 'A',
        'b' => 'B',
        'c' => 'C',
        'd' => 'D',
        'e' => 'E',
        'f' => 'F',
        'g' => 'G',
        'h' => 'H',
        'i' => 'I',
        'j' => 'J',
        'k' => 'K',
        'l' => 'L',
        'm' => 'M',
        'n' => 'N',
        'o' => 'O',
        'p' => 'P',
        'q' => 'Q',
        'r' => 'R',
        's' => 'S',
        't' => 'T',
        'u' => 'U',
        'v' => 'V',
        'w' => 'W',
        'x' => 'X',
        'y' => 'Y',
        'z' => 'Z',
        _ => c,
    }
}

/// A character a snippet-capable command name may hold: a lowercase
/// letter or an underscore.
pub open spec fn lower_snake_char(c: char) -> bool {
    ('a' <= c && c <= 'z') || c == '_'
}

/// The string with every uppercase letter lowered.
pub fn ascii_lowercase(s: &str) -> (r: String)
    ensures
        r@ == s@.map_values(|c: char| spec_lower_char(c)),
{
    let chars = crate::strutil::str_to_chars(s);
    let mut out: Vec<char> = Vec::new();
    let mut i: usize = 0;
    while i < chars.len()
        invariant
            i <= chars@.len(),
            chars@ == s@,
            out@ =~~= s@.subrange(0, i as int).map_values(|c: char| spec_lower_char(c)),
        decreases chars@.len() - i,
    {
        out.push(lower_char(chars[i]));
        proof {
            assert(out@ =~~= s@.subrange(0, i + 1).map_values(|c: char| spec_lower_char(c)));
        }
        i += 1;
    }
    proof {
        assert(s@.subrange(0, s@.len() as int) =~= s@);
    }
    crate::strutil::chars_to_string(&out)
}

/// The string with every lowercase letter raised.
pub fn ascii_uppercase(s: &str) -> (r: String)
    ensures
        r@ == s@.map_values(|c: char| spec_upper_char(c)),
{
    let chars = crate::strutil::str_to_chars(s);
    let mut out: Vec<char> = Vec::new();
    let mut i: usize = 0;
    while i < chars.len()
        invariant
            i <= chars@.len(),
            chars@ == s@,
            out@ =~~= s@.subrange(0, i as int).map_values(|c: char| spec_upper_char(c)),
        decreases chars@.len() - i,
    {
        out.push(upper_char(chars[i]));
        proof {
            assert(out@ =~~= s@.subrange(0, i + 1).map_values(|c: char| spec_upper_char(c)));
        }
        i += 1;
    }
    proof {
        assert(s@.subrange(0, s@.len() as int) =~= s@);
    }
    crate::strutil::chars_to_string(&out)
}

/// Whether every character is a lowercase letter or an underscore —
/// the only names rendered as snippet templates.
pub fn is_lower_snake(s: &str) -> (r: bool)
    ensures
        r <==> (forall|k: int| 0 <= k < s@.len() ==> lower_snake_char(#[trigger] s@[k])),
{
    let chars = crate::strutil::str_to_chars(s);
    let mut i: usize = 0;
    while i < chars.len()
        invariant
            i <= chars@.len(),
            chars@ == s@,
            forall|k: int| 0 <= k < i ==> lower_snake_char(#[trigger] s@[k]),
        decreases chars@.len() - i,
    {
        let c = chars[i];
        if !(('a' <= c && c <= 'z') || c == '_') {
            return false;
        }
        i += 1;
    }
    true
}

/// The decimal digit character for one digit value.
pub open spec fn spec_digit(n: int) -> char {
    if n == 0 { '0' }
    else if n == 1 { '1' }
    else if n == 2 { '2' }
    else if n == 3 { '3' }
    else if n == 4 { '4' }
    else if n == 5 { '5' }
    else if n == 6 { '6' }
    else if n == 7 { '7' }
    else if n == 8 { '8' }
    else { '9' }
}

/// The decimal rendering of a non-negative number.
pub open spec fn dec_digits(n: int) -> Seq<char>
    decreases n,
{
    if n < 10 {
        seq![spec_digit(n)]
    } else {
        dec_digits(n / 10).push(spec_digit(n % 10))
    }
}

fn digit_char(n: usize) -> (r: char)
    requires
        n < 10,
    ensures
        r == spec_digit(n as int),
{
    match n {
        0 => '0',
        1 => '1',
        2 => '2',
        3 => '3',
        4 => '4',
        5 => '5',
        6 => '6',
        7 => '7',
        8 => '8',
        _ => '9',
    }
}

/// Appends the decimal rendering of `n`.
fn push_decimal(n: usize, out: &mut Vec<char>)
    ensures
        final(out)@ == old(out)@ + dec_digits(n as int),
    decreases n,
{
    if n >= 10 {
        push_decimal(n / 10, out);
    }
    out.push(digit_char(n % 10));
    proof {
        assert(out@ =~= old(out)@ + dec_digits(n as int));
    }
}

// ---------------------------------------------------------------------
// Snippet templates
// ---------------------------------------------------------------------

/// One numbered placeholder for an argument token.
pub open spec fn placeholder(i: int, arg: Seq<char>) -> Seq<char> {
    seq!['$', '{'] + dec_digits(i) + seq![':'] + arg + seq!['}']
}

/// The first `n` argument tokens as placeholders, joined with spaces.
pub open spec fn placeholder_list(args: Seq<Seq<char>>, n: int) -> Seq<char>
    decreases n,
{
    if n <= 0 {
        Seq::empty()
    } else if n == 1 {
        placeholder(1, args[0])
    } else {
        placeholder_list(args, n - 1) + seq![' '] + placeholder(n, args[n - 1])
    }
}

/// The snippet template for a command: its name, then each argument
/// token as a sequentially numbered placeholder.
pub open spec fn snippet_of(key: Seq<char>, args: Seq<Seq<char>>) -> Seq<char> {
    key + seq!['('] + placeholder_list(args, args.len() as int) + seq![')']
}

/// Appends the characters of a string.
fn push_str_chars(out: &mut Vec<char>, s: &str)
    ensures
        final(out)@ == old(out)@ + s@,
{
    let chars = crate::strutil::str_to_chars(s);
    let mut m: usize = 0;
    while m < chars.len()
        invariant
            m <= chars@.len(),
            chars@ == s@,
            out@ == old(out)@ + s@.subrange(0, m as int),
        decreases chars@.len() - m,
    {
        out.push(chars[m]);
        proof {
            assert(old(out)@ + s@.subrange(0, m as int) + seq![s@[m as int]] =~= old(out)@
                + s@.subrange(0, m + 1));
        }
        m += 1;
    }
    proof {
        assert(s@.subrange(0, s@.len() as int) =~= s@);
    }
}

/// Renders a command invocation as an insertion template: the name,
/// then each argument token as a numbered placeholder.
pub fn convert_to_lsp_snippet(key: &str, args: &Vec<String>) -> (r: String)
    ensures
        r@ == snippet_of(key@, args@.map_values(|s: String| s@)),
{
    let ghost av = args@.map_values(|s: String| s@);
    let mut out: Vec<char> = crate::strutil::str_to_chars(key);
    out.push('(');
    proof {
        assert(out@ =~= key@ + seq!['('] + placeholder_list(av, 0));
    }
    let mut i: usize = 0;
    while i < args.len()
        invariant
            i <= args@.len(),
            av == args@.map_values(|s: String| s@),
            out@ == key@ + seq!['('] + placeholder_list(av, i as int),
        decreases args@.len() - i,
    {
        if i > 0 {
            out.push(' ');
        }
        out.push('$');
        out.push('{');
        push_decimal(i + 1, &mut out);
        out.push(':');
        push_str_chars(&mut out, args[i].as_str());
        out.push('}');
        proof {
            assert(av[i as int] == args@[i as int]@);
            assert(out@ =~= key@ + seq!['('] + placeholder_list(av, i + 1));
        }
        i += 1;
    }
    out.push(')');
    proof {
        assert(out@ =~= snippet_of(key@, av));
    }
    crate::strutil::chars_to_string(&out)
}

// ---------------------------------------------------------------------
// Built-in candidates
// ---------------------------------------------------------------------

/// The search pattern for a command's documented call signature:
/// the name after a newline and indentation, with its parenthesized
/// argument list.
pub open spec fn sig_pattern_view(label: Seq<char>) -> Seq<char> {
    "\\n\\s+"@ + label + "\\([^)]*\\)"@
}

/// A regex whitespace character.
pub open spec fn ws_char(c: char) -> bool {
    c == ' ' || c == '\t' || c == '\n' || c == '\r' || c == '\u{b}' || c == '\u{c}'
}

/// The text with its leading whitespace removed.
pub open spec fn trim_leading_ws(s: Seq<char>) -> Seq<char>
    decreases s.len(),
{
    if s.len() > 0 && ws_char(s[0]) {
        trim_leading_ws(s.drop_first())
    } else {
        s
    }
}

/// Whether every character may stand in a snippet-capable name.
pub open spec fn all_lower_snake(s: Seq<char>) -> bool {
    forall|k: int| 0 <= k < s.len() ==> lower_snake_char(#[trigger] s[k])
}

/// The signature text the documentation offers for a label, leading
/// whitespace dropped; none where the pattern finds nothing.
pub open spec fn spec_snippet_source(label: Seq<char>, doc: Seq<char>) -> Option<Seq<char>> {
    if !regex_pattern_valid(sig_pattern_view(label)) {
        None
    } else {
        let ms = regex_matches_of(sig_pattern_view(label), doc);
        if ms.len() == 0 {
            None
        } else {
            Some(trim_leading_ws(ms[0]))
        }
    }
}

/// The argument texts of the invocation a line carries.
pub open spec fn shape_args(s: Seq<char>) -> Seq<Seq<char>> {
    match crate::grammar::line_shape(s) {
        crate::grammar::LineShape::Cmd { args, .. } => Seq::new(
            args.len(),
            |k: int| s.subrange(args[k].0, args[k].1),
        ),
        _ => Seq::empty(),
    }
}

/// The rendered template for a label, where its documented signature
/// is found and parses as an invocation; none otherwise.
pub open spec fn spec_snippet_render(label: Seq<char>, doc: Seq<char>) -> Option<Seq<char>> {
    match spec_snippet_source(label, doc) {
        None => None,
        Some(sig) => if crate::grammar::line_shape(sig) is Cmd {
            Some(snippet_of(label, shape_args(sig)))
        } else {
            None
        },
    }
}

/// The plain-value content of a candidate.
pub open spec fn entry_view(e: CompletionEntry) -> (
    Seq<char>,
    CompletionKind,
    Option<Seq<char>>,
    Option<Seq<char>>,
    Option<Seq<char>>,
    InsertFormat,
) {
    (
        e.label@,
        e.kind,
        opt_string_view(e.detail),
        opt_string_view(e.documentation),
        opt_string_view(e.insert_text),
        e.insert_text_format,
    )
}

/// The view of an optional string.
pub open spec fn opt_string_view(s: Option<String>) -> Option<Seq<char>> {
    match s {
        Some(t) => Some(t@),
        None => None,
    }
}

/// Whether `e` is the command candidate owed for `label` with body
/// `doc`: rendered as a template where the editor supports snippets,
/// the label is lowercase, and the documented signature parses; a
/// plain-text insertion of just the name otherwise.
pub open spec fn is_builtin_command_item(
    e: CompletionEntry,
    label: Seq<char>,
    doc: Seq<char>,
    support_snippet: bool,
) -> bool {
    &&& opt_string_view(e.documentation) == Some(doc)
    &&& opt_string_view(e.detail) == Some("Function"@)
    &&& if support_snippet && all_lower_snake(label) && spec_snippet_render(label, doc) is Some {
        &&& e.label@ == spec_snippet_render(label, doc).unwrap()
        &&& opt_string_view(e.insert_text) == Some(spec_snippet_render(label, doc).unwrap())
        &&& e.kind == CompletionKind::Snippet
        &&& e.insert_text_format == InsertFormat::SnippetTemplate
    } else {
        &&& e.label@ == label
        &&& opt_string_view(e.insert_text) == Some(label)
        &&& e.kind == CompletionKind::Function
        &&& e.insert_text_format == InsertFormat::PlainText
    }
}

/// Drops the leading whitespace of a string.
fn trim_leading(s: &str) -> (r: String)
    ensures
        r@ == trim_leading_ws(s@),
{
    let chars = crate::strutil::str_to_chars(s);
    let n = chars.len();
    proof {
        assert(s@.subrange(0, n as int) =~= s@);
    }
    let mut i: usize = 0;
    while i < n && (chars[i] == ' ' || chars[i] == '\t' || chars[i] == '\n' || chars[i] == '\r'
        || chars[i] == '\u{b}' || chars[i] == '\u{c}')
        invariant
            i <= n,
            n == chars@.len(),
            chars@ == s@,
            trim_leading_ws(s@) == trim_leading_ws(s@.subrange(i as int, n as int)),
        decreases n - i,
    {
        proof {
            assert(s@.subrange(i as int, n as int).drop_first() =~= s@.subrange(i + 1, n as int));
        }
        i += 1;
    }
    proof {
        if i < n {
            assert(!ws_char(s@[i as int]));
            assert(s@.subrange(i as int, n as int)[0] == s@[i as int]);
        }
        assert(trim_leading_ws(s@.subrange(i as int, n as int)) == s@.subrange(i as int, n as int));
    }
    let mut out: Vec<char> = Vec::new();
    let mut m: usize = i;
    while m < n
        invariant
            i <= m <= n,
            n == chars@.len(),
            chars@ == s@,
            out@ == s@.subrange(i as int, m as int),
            trim_leading_ws(s@) == s@.subrange(i as int, n as int),
        decreases n - m,
    {
        out.push(chars[m]);
        m += 1;
    }
    proof {
        assert(out@ =~= s@.subrange(i as int, n as int));
    }
    crate::strutil::chars_to_string(&out)
}

/// Builds the command candidate for one help entry key.
pub fn make_builtin_command_item(label: &str, doc: &String, support_snippet: bool) -> (e:
    CompletionEntry)
    ensures
        is_builtin_command_item(e, label@, doc@, support_snippet),
{
    let snippet_wanted = support_snippet && is_lower_snake(label);
    if snippet_wanted {
        let mut pattern = String::from_str("\\n\\s+");
        pattern.append(label);
        pattern.append("\\([^)]*\\)");
        proof {
            assert(pattern@ =~= sig_pattern_view(label@));
        }
        match regex_find_all(pattern.as_str(), doc.as_str()) {
            Some(ms) => {
                if ms.len() > 0 {
                    proof {
                        assert(ms@.map_values(|s: String| s@)[0] == ms@[0]@);
                    }
                    let sig = trim_leading(ms[0].as_str());
                    let sig_len = sig.as_str().unicode_len();
                    proof {
                        assert(sig@.len() == sig_len);
                    }
                    match crate::grammar::parse_line(sig.as_str(), 0) {
                        crate::grammar::LineParse::Command(inv) => {
                            let mut arg_texts: Vec<String> = Vec::new();
                            let mut k: usize = 0;
                            while k < inv.args.len()
                                invariant
                                    k <= inv.args@.len(),
                                    arg_texts@.map_values(|s: String| s@) =~~= Seq::new(
                                        k as nat,
                                        |m: int| inv.args@[m].text@,
                                    ),
                                decreases inv.args@.len() - k,
                            {
                                let ghost aprev = arg_texts@;
                                arg_texts.push(inv.args[k].text.clone());
                                proof {
                                    aprev.lemma_push_map_commute(
                                        |s: String| s@,
                                        arg_texts@.last(),
                                    );
                                    assert(arg_texts@.last()@ == inv.args@[k as int].text@);
                                    assert(arg_texts@.map_values(|s: String| s@) =~~= Seq::new(
                                        (k + 1) as nat,
                                        |m: int| inv.args@[m].text@,
                                    ));
                                }
                                k += 1;
                            }
                            let rendered = convert_to_lsp_snippet(label, &arg_texts);
                            proof {
                                assert(arg_texts@.map_values(|s: String| s@) =~~= shape_args(
                                    sig@,
                                ));
                                assert(rendered@ == spec_snippet_render(label@, doc@).unwrap());
                            }
                            CompletionEntry {
                                label: rendered.clone(),
                                kind: CompletionKind::Snippet,
                                detail: Some(String::from_str("Function")),
                                documentation: Some(doc.clone()),
                                insert_text: Some(rendered),
                                insert_text_format: InsertFormat::SnippetTemplate,
                            }
                        },
                        _ => plain_command_item(label, doc),
                    }
                } else {
                    plain_command_item(label, doc)
                }
            },
            None => plain_command_item(label, doc),
        }
    } else {
        plain_command_item(label, doc)
    }
}

/// The plain-text command candidate: just the name.
fn plain_command_item(label: &str, doc: &String) -> (e: CompletionEntry)
    ensures
        e.label@ == label@,
        opt_string_view(e.insert_text) == Some(label@),
        e.kind == CompletionKind::Function,
        e.insert_text_format == InsertFormat::PlainText,
        opt_string_view(e.documentation) == Some(doc@),
        opt_string_view(e.detail) == Some("Function"@),
{
    CompletionEntry {
        label: String::from_str(label),
        kind: CompletionKind::Function,
        detail: Some(String::from_str("Function")),
        documentation: Some(doc.clone()),
        insert_text: Some(String::from_str(label)),
        insert_text_format: InsertFormat::PlainText,
    }
}

/// Builds the command candidates of the whole help text: for each
/// entry one candidate under its lowercase key and one under its
/// uppercase key.
pub fn make_command_items(entries: &Vec<BuiltinEntry>, support_snippet: bool) -> (r: Vec<
    CompletionEntry,
>)
    ensures
        r@.len() == 2 * entries@.len(),
        forall|k: int|
            0 <= k < entries@.len() ==> {
                let key = (#[trigger] entries@[k]).key@;
                let doc = entries@[k].doc@;
                &&& is_builtin_command_item(
                    r@[2 * k],
                    key.map_values(|c: char| spec_lower_char(c)),
                    doc,
                    support_snippet,
                )
                &&& is_builtin_command_item(
                    r@[2 * k + 1],
                    key.map_values(|c: char| spec_upper_char(c)),
                    doc,
                    support_snippet,
                )
            },
{
    let mut r: Vec<CompletionEntry> = Vec::new();
    let mut k: usize = 0;
    while k < entries.len()
        invariant
            k <= entries@.len(),
            r@.len() == 2 * k,
            forall|m: int|
                0 <= m < k ==> {
                    let key = (#[trigger] entries@[m]).key@;
                    let doc = entries@[m].doc@;
                    &&& is_builtin_command_item(
                        r@[2 * m],
                        key.map_values(|c: char| spec_lower_char(c)),
                        doc,
                        support_snippet,
                    )
                    &&& is_builtin_command_item(
                        r@[2 * m + 1],
                        key.map_values(|c: char| spec_upper_char(c)),
                        doc,
                        support_snippet,
                    )
                },
        decreases entries@.len() - k,
    {
        let entry = &entries[k];
        let lower = ascii_lowercase(entry.key.as_str());
        let upper = ascii_uppercase(entry.key.as_str());
        let low_item = make_builtin_command_item(lower.as_str(), &entry.doc, support_snippet);
        let up_item = make_builtin_command_item(upper.as_str(), &entry.doc, support_snippet);
        r.push(low_item);
        r.push(up_item);
        k += 1;
    }
    r
}

/// Builds plain candidates of one kind for the help entries — the
/// shape used for built-in variables and modules.
pub fn make_plain_items(entries: &Vec<BuiltinEntry>, kind: CompletionKind, detail: &str) -> (r:
    Vec<CompletionEntry>)
    ensures
        r@.len() == entries@.len(),
        forall|k: int|
            0 <= k < entries@.len() ==> {
                let e = #[trigger] r@[k];
                &&& e.label@ == entries@[k].key@
                &&& e.kind == kind
                &&& opt_string_view(e.detail) == Some(detail@)
                &&& opt_string_view(e.documentation) == Some(entries@[k].doc@)
                &&& e.insert_text is None
                &&& e.insert_text_format == InsertFormat::PlainText
            },
{
    let mut r: Vec<CompletionEntry> = Vec::new();
    let mut k: usize = 0;
    while k < entries.len()
        invariant
            k <= entries@.len(),
            r@.len() == k,
            forall|m: int|
                0 <= m < k ==> {
                    let e = #[trigger] r@[m];
                    &&& e.label@ == entries@[m].key@
                    &&& e.kind == kind
                    &&& opt_string_view(e.detail) == Some(detail@)
                    &&& opt_string_view(e.documentation) == Some(entries@[m].doc@)
                    &&& e.insert_text is None
                    &&& e.insert_text_format == InsertFormat::PlainText
                },
        decreases entries@.len() - k,
    {
        let entry = &entries[k];
        r.push(CompletionEntry {
            label: entry.key.clone(),
            kind,
            detail: Some(String::from_str(detail)),
            documentation: Some(entry.doc.clone()),
            insert_text: None,
            insert_text_format: InsertFormat::PlainText,
        });
        k += 1;
    }
    r
}

// ---------------------------------------------------------------------
// Merging completion sources
// ---------------------------------------------------------------------

/// The command name a line's invocation carries; empty where it
/// carries none.
pub open spec fn line_cmd_name(l: Seq<char>) -> Seq<char> {
    match crate::grammar::line_shape(l) {
        crate::grammar::LineShape::Cmd { name_start, name_end, .. } => l.subrange(
            name_start,
            name_end,
        ),
        _ => Seq::empty(),
    }
}

/// Whether a command binds a local name: its first argument.
pub open spec fn binding_command(name: Seq<char>) -> bool {
    name == "set"@ || name == "function"@ || name == "macro"@ || name == "option"@
}

/// The locally bound names of the first `n` lines, in order of their
/// binding constructs.
pub open spec fn local_defs(lines: Seq<Seq<char>>, n: int) -> Seq<Seq<char>>
    decreases n,
{
    if n <= 0 {
        Seq::empty()
    } else {
        local_defs(lines, n - 1) + ({
            let l = lines[n - 1];
            match crate::grammar::line_shape(l) {
                crate::grammar::LineShape::Cmd { args, .. } => if binding_command(line_cmd_name(l))
                    && args.len() > 0 {
                    seq![l.subrange(args[0].0, args[0].1)]
                } else {
                    Seq::empty()
                },
                _ => Seq::empty(),
            }
        })
    }
}

/// Collects the locally bound names: the first argument of every
/// binding construct, scanned top to bottom.
pub fn local_names(source: &[String]) -> (r: Vec<String>)
    ensures
        r@.map_values(|s: String| s@) == local_defs(
            crate::utils::lines_view(source@),
            source@.len() as int,
        ),
{
    let ghost lines = crate::utils::lines_view(source@);
    let mut r: Vec<String> = Vec::new();
    let mut row: usize = 0;
    while row < source.len()
        invariant
            row <= source@.len(),
            lines == crate::utils::lines_view(source@),
            r@.map_values(|s: String| s@) == local_defs(lines, row as int),
        decreases source@.len() - row,
    {
        let line = &source[row];
        let line_len = line.as_str().unicode_len();
        match crate::grammar::parse_line(line.as_str(), row) {
            crate::grammar::LineParse::Command(inv) => {
                let is_binding = crate::strutil::str_eq(inv.name.as_str(), "set")
                    || crate::strutil::str_eq(inv.name.as_str(), "function")
                    || crate::strutil::str_eq(inv.name.as_str(), "macro")
                    || crate::strutil::str_eq(inv.name.as_str(), "option");
                proof {
                    assert(lines[row as int] == line@);
                    assert(is_binding == binding_command(line_cmd_name(line@)));
                }
                if is_binding && inv.args.len() > 0 {
                    let ghost rprev = r@;
                    r.push(inv.args[0].text.clone());
                    proof {
                        rprev.lemma_push_map_commute(|s: String| s@, r@.last());
                        assert(r@.map_values(|s: String| s@) =~~= local_defs(lines, row + 1));
                    }
                } else {
                    proof {
                        assert(r@.map_values(|s: String| s@) =~~= local_defs(lines, row + 1));
                    }
                }
            },
            _ => {
                proof {
                    assert(r@.map_values(|s: String| s@) =~~= local_defs(lines, row + 1));
                }
            },
        }
        row += 1;
    }
    r
}

/// Whether the cursor stands between the parentheses of an invocation
/// of the given command on its line.
pub open spec fn in_invocation_arg(
    lines: Seq<Seq<char>>,
    line: int,
    col: int,
    cmd: Seq<char>,
) -> bool {
    &&& 0 <= line < lines.len()
    &&& crate::grammar::line_shape(lines[line]) matches crate::grammar::LineShape::Cmd {
        open,
        close,
        ..
    } && open < col <= close
    &&& line_cmd_name(lines[line]) == cmd
}

/// Decides whether the cursor stands inside an argument list of the
/// named command.
pub fn cursor_in_invocation_arg(source: &[String], line: u32, col: u32, cmd: &str) -> (r: bool)
    ensures
        r == in_invocation_arg(
            crate::utils::lines_view(source@),
            line as int,
            col as int,
            cmd@,
        ),
{
    let ghost lines = crate::utils::lines_view(source@);
    if (line as usize) >= source.len() {
        return false;
    }
    let row = line as usize;
    let text = &source[row];
    let _n = text.as_str().unicode_len();
    match crate::grammar::parse_line(text.as_str(), row) {
        crate::grammar::LineParse::Command(inv) => {
            proof {
                assert(lines[row as int] == text@);
            }
            let named = crate::strutil::str_eq(inv.name.as_str(), cmd);
            named && (inv.open_column as u64) < (col as u64) && (col as u64) <= (
            inv.close_column as u64)
        },
        _ => false,
    }
}

/// Merges the completion sources for a cursor position, in a fixed
/// order: the built-in catalog where the one fetch succeeded — a
/// session whose fetch failed simply lacks them; the document's
/// locally bound names; the index's package names where the cursor
/// stands in a package-reference argument; the given subdirectory
/// names where it stands in a subdirectory-inclusion argument.
pub fn getcomplete(
    source: &[String],
    position: crate::protocol::DocPosition,
    cell: &BuiltinCatalogCell,
    index: &crate::scan::WorkspaceIndex,
    subdir_names: &Vec<String>,
) -> (r: Vec<CompletionEntry>)
    ensures
        ({
            let lines = crate::utils::lines_view(source@);
            let locals = local_defs(lines, source@.len() as int);
            let pkg_ctx = in_invocation_arg(
                lines,
                position.line as int,
                position.character as int,
                "find_package"@,
            );
            let sub_ctx = in_invocation_arg(
                lines,
                position.line as int,
                position.character as int,
                "add_subdirectory"@,
            );
            let b_commands = match *cell {
                BuiltinCatalogCell::Available(c) => c.commands@,
                _ => Seq::empty(),
            };
            let b_variables = match *cell {
                BuiltinCatalogCell::Available(c) => c.variables@,
                _ => Seq::empty(),
            };
            let b_modules = match *cell {
                BuiltinCatalogCell::Available(c) => c.modules@,
                _ => Seq::empty(),
            };
            let n0 = b_commands.len() + b_variables.len() + b_modules.len();
            let n1 = n0 + locals.len();
            let n2 = n1 + if pkg_ctx {
                index.packages@.len()
            } else {
                0
            };
            &&& r@.len() == n2 + if sub_ctx {
                subdir_names@.len()
            } else {
                0
            }
            &&& forall|k: int|
                0 <= k < b_commands.len() ==> entry_view(#[trigger] r@[k]) == entry_view(
                    b_commands[k],
                )
            &&& forall|k: int|
                0 <= k < b_variables.len() ==> entry_view(
                    #[trigger] r@[b_commands.len() + k],
                ) == entry_view(b_variables[k])
            &&& forall|k: int|
                0 <= k < b_modules.len() ==> entry_view(
                    #[trigger] r@[b_commands.len() + b_variables.len() + k],
                ) == entry_view(b_modules[k])
            &&& forall|k: int|
                0 <= k < locals.len() ==> {
                    let e = #[trigger] r@[n0 + k];
                    &&& e.label@ == locals[k]
                    &&& e.kind == CompletionKind::Variable
                    &&& opt_string_view(e.detail) == Some("Defined"@)
                }
            &&& pkg_ctx ==> (forall|k: int|
                0 <= k < index.packages@.len() ==> {
                    let e = #[trigger] r@[n1 + k];
                    &&& e.label@ == index.packages@[k].name@
                    &&& e.kind == CompletionKind::Module
                    &&& opt_string_view(e.detail) == Some("Package"@)
                })
            &&& sub_ctx ==> (forall|k: int|
                0 <= k < subdir_names@.len() ==> {
                    let e = #[trigger] r@[n2 + k];
                    &&& e.label@ == subdir_names@[k]@
                    &&& e.kind == CompletionKind::Value
                    &&& opt_string_view(e.detail) == Some("Subdirectory"@)
                })
        }),
{
    let ghost lines = crate::utils::lines_view(source@);
    let mut r: Vec<CompletionEntry> = Vec::new();
    match cell.available() {
        Some(catalog) => {
            push_copies(&mut r, &catalog.commands);
            let ghost s1 = r@;
            push_copies(&mut r, &catalog.variables);
            let ghost s2 = r@;
            push_copies(&mut r, &catalog.modules);
            proof {
                assert forall|m: int| 0 <= m < catalog.commands@.len() implies entry_view(
                    #[trigger] r@[m],
                ) == entry_view(catalog.commands@[m]) by {
                    assert(entry_view(s1[0 + m]) == entry_view(catalog.commands@[m]));
                    assert(s2[m] == s1[m]);
                    assert(r@[m] == s2[m]);
                }
                assert forall|m: int| 0 <= m < catalog.variables@.len() implies entry_view(
                    #[trigger] r@[catalog.commands@.len() + m],
                ) == entry_view(catalog.variables@[m]) by {
                    assert(r@[s1.len() + m] == s2[s1.len() + m]);
                    assert(entry_view(s2[s1.len() + m]) == entry_view(catalog.variables@[m]));
                }
                assert forall|m: int| 0 <= m < catalog.modules@.len() implies entry_view(
                    #[trigger] r@[catalog.commands@.len() + catalog.variables@.len() + m],
                ) == entry_view(catalog.modules@[m]) by {
                    assert(entry_view(r@[s2.len() + m]) == entry_view(catalog.modules@[m]));
                }
            }
        },
        None => {},
    }
    let ghost seg0 = r@;

    let locals = local_names(source);
    let mut k: usize = 0;
    while k < locals.len()
        invariant
            k <= locals@.len(),
            r@.len() == seg0.len() + k,
            r@.subrange(0, seg0.len() as int) == seg0,
            forall|m: int|
                0 <= m < k ==> {
                    let e = #[trigger] r@[seg0.len() + m];
                    &&& e.label@ == locals@[m]@
                    &&& e.kind == CompletionKind::Variable
                    &&& opt_string_view(e.detail) == Some("Defined"@)
                },
        decreases locals@.len() - k,
    {
        r.push(CompletionEntry {
            label: locals[k].clone(),
            kind: CompletionKind::Variable,
            detail: Some(String::from_str("Defined")),
            documentation: None,
            insert_text: None,
            insert_text_format: InsertFormat::PlainText,
        });
        proof {
            assert(r@.subrange(0, seg0.len() as int) =~= seg0);
        }
        k += 1;
    }
    proof {
        assert(locals@.map_values(|s: String| s@)
            == local_defs(lines, source@.len() as int));
        assert forall|m: int| 0 <= m < locals@.len() implies locals@[m]@ == local_defs(
            lines,
            source@.len() as int,
        )[m] by {
            assert(locals@.map_values(|s: String| s@)[m] == locals@[m]@);
        }
    }
    let ghost seg1 = r@;

    let pkg_ctx = cursor_in_invocation_arg(source, position.line, position.character,
        "find_package");
    if pkg_ctx {
        let mut k2: usize = 0;
        while k2 < index.packages.len()
            invariant
                k2 <= index.packages@.len(),
                r@.len() == seg1.len() + k2,
                r@.subrange(0, seg1.len() as int) == seg1,
                forall|m: int|
                    0 <= m < k2 ==> {
                        let e = #[trigger] r@[seg1.len() + m];
                        &&& e.label@ == index.packages@[m].name@
                        &&& e.kind == CompletionKind::Module
                        &&& opt_string_view(e.detail) == Some("Package"@)
                    },
            decreases index.packages@.len() - k2,
        {
            r.push(CompletionEntry {
                label: index.packages[k2].name.clone(),
                kind: CompletionKind::Module,
                detail: Some(String::from_str("Package")),
                documentation: None,
                insert_text: None,
                insert_text_format: InsertFormat::PlainText,
            });
            proof {
                assert(r@.subrange(0, seg1.len() as int) =~= seg1);
            }
            k2 += 1;
        }
    }
    let ghost seg2 = r@;

    let sub_ctx = cursor_in_invocation_arg(source, position.line, position.character,
        "add_subdirectory");
    if sub_ctx {
        let mut k3: usize = 0;
        while k3 < subdir_names.len()
            invariant
                k3 <= subdir_names@.len(),
                r@.len() == seg2.len() + k3,
                r@.subrange(0, seg2.len() as int) == seg2,
                forall|m: int|
                    0 <= m < k3 ==> {
                        let e = #[trigger] r@[seg2.len() + m];
                        &&& e.label@ == subdir_names@[m]@
                        &&& e.kind == CompletionKind::Value
                        &&& opt_string_view(e.detail) == Some("Subdirectory"@)
                    },
            decreases subdir_names@.len() - k3,
        {
            r.push(CompletionEntry {
                label: subdir_names[k3].clone(),
                kind: CompletionKind::Value,
                detail: Some(String::from_str("Subdirectory")),
                documentation: None,
                insert_text: None,
                insert_text_format: InsertFormat::PlainText,
            });
            proof {
                assert(r@.subrange(0, seg2.len() as int) =~= seg2);
            }
            k3 += 1;
        }
    }
    proof {
        assert forall|m: int| 0 <= m < seg0.len() implies r@[m] == seg0[m] by {
            assert(seg1.subrange(0, seg0.len() as int)[m] == seg1[m]);
            assert(seg2.subrange(0, seg1.len() as int)[m] == seg2[m]);
            assert(r@.subrange(0, seg2.len() as int)[m] == r@[m]);
        }
        assert forall|m: int| 0 <= m < seg1.len() implies r@[m] == seg1[m] by {
            assert(seg2.subrange(0, seg1.len() as int)[m] == seg2[m]);
            assert(r@.subrange(0, seg2.len() as int)[m] == r@[m]);
        }
        assert forall|m: int| 0 <= m < seg2.len() implies r@[m] == seg2[m] by {
            assert(r@.subrange(0, seg2.len() as int)[m] == r@[m]);
        }
    }
    proof {
        let lines_g = crate::utils::lines_view(source@);
        let locals_g = local_defs(lines_g, source@.len() as int);
        let pkg_ctx_g = in_invocation_arg(lines_g, position.line as int, position.character as int, "find_package"@);
        let sub_ctx_g = in_invocation_arg(lines_g, position.line as int, position.character as int, "add_subdirectory"@);
        let b_commands = match cell { BuiltinCatalogCell::Available(c) => c.commands@, _ => Seq::empty() };
        let b_variables = match cell { BuiltinCatalogCell::Available(c) => c.variables@, _ => Seq::empty() };
        let b_modules = match cell { BuiltinCatalogCell::Available(c) => c.modules@, _ => Seq::empty() };
        let n0 = b_commands.len() + b_variables.len() + b_modules.len();
        let n1 = n0 + locals_g.len();
        assert(seg0.len() == n0);
        assert(seg1.len() == n1);
        assert(r@.len() == seg2.len() + if sub_ctx_g { subdir_names@.len() } else { 0 });
        assert forall|k: int| 0 <= k < b_commands.len() implies entry_view(#[trigger] r@[k])
            == entry_view(b_commands[k]) by {
            assert(r@[k] == seg0[k]);
        }
        assert forall|k: int| 0 <= k < b_variables.len() implies entry_view(
            #[trigger] r@[b_commands.len() + k],
        ) == entry_view(b_variables[k]) by {
            assert(r@[b_commands.len() + k] == seg0[b_commands.len() + k]);
        }
        assert forall|k: int| 0 <= k < b_modules.len() implies entry_view(
            #[trigger] r@[b_commands.len() + b_variables.len() + k],
        ) == entry_view(b_modules[k]) by {
            assert(r@[b_commands.len() + b_variables.len() + k] == seg0[b_commands.len()
                + b_variables.len() + k]);
        }
        assert forall|k: int| 0 <= k < locals_g.len() implies {
            let e = #[trigger] r@[n0 + k];
            &&& e.label@ == locals_g[k]
            &&& e.kind == CompletionKind::Variable
            &&& opt_string_view(e.detail) == Some("Defined"@)
        } by {
            assert(r@[seg0.len() as int + k] == seg1[seg0.len() as int + k]);
            assert((seg1[seg0.len() as int + k]).kind == CompletionKind::Variable);
        }
        if pkg_ctx_g {
            assert forall|k: int| 0 <= k < index.packages@.len() implies {
                let e = #[trigger] r@[n1 + k];
                &&& e.label@ == index.packages@[k].name@
                &&& e.kind == CompletionKind::Module
                &&& opt_string_view(e.detail) == Some("Package"@)
            } by {
                assert(r@[seg1.len() as int + k] == seg2[seg1.len() as int + k]);
                assert((seg2[seg1.len() as int + k]).kind == CompletionKind::Module);
            }
        }
        if sub_ctx_g {
            let n2 = n1 + if pkg_ctx_g { index.packages@.len() } else { 0 };
            assert forall|k: int| 0 <= k < subdir_names@.len() implies {
                let e = #[trigger] r@[n2 as int + k];
                &&& e.label@ == subdir_names@[k]@
                &&& e.kind == CompletionKind::Value
                &&& opt_string_view(e.detail) == Some("Subdirectory"@)
            } by {
                assert((r@[seg2.len() as int + k]).kind == CompletionKind::Value);
            }
        }
    }
    r
}

/// Appends a copy of every candidate, contents unchanged.
fn push_copies(r: &mut Vec<CompletionEntry>, src: &Vec<CompletionEntry>)
    ensures
        final(r)@.len() == old(r)@.len() + src@.len(),
        forall|m: int| 0 <= m < old(r)@.len() ==> #[trigger] final(r)@[m] == old(r)@[m],
        forall|m: int|
            0 <= m < src@.len() ==> entry_view(#[trigger] final(r)@[old(r)@.len() + m])
                == entry_view(src@[m]),
{
    let mut k: usize = 0;
    while k < src.len()
        invariant
            k <= src@.len(),
            r@.len() == old(r)@.len() + k,
            forall|m: int| 0 <= m < old(r)@.len() ==> #[trigger] r@[m] == old(r)@[m],
            forall|m: int|
                0 <= m < k ==> entry_view(#[trigger] r@[old(r)@.len() + m]) == entry_view(
                    src@[m],
                ),
        decreases src@.len() - k,
    {
        let e = &src[k];
        r.push(CompletionEntry {
            label: e.label.clone(),
            kind: e.kind,
            detail: copy_opt_string(&e.detail),
            documentation: copy_opt_string(&e.documentation),
            insert_text: copy_opt_string(&e.insert_text),
            insert_text_format: e.insert_text_format,
        });
        k += 1;
    }
}

/// A copy of an optional string, contents unchanged.
fn copy_opt_string(s: &Option<String>) -> (r: Option<String>)
    ensures
        opt_string_view(r) == opt_string_view(*s),
{
    match s {
        Some(t) => Some(t.clone()),
        None => None,
    }
}

} // verus!
