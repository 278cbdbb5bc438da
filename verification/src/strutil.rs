//! Small verified string helpers: characters of a string, line splitting,
//! and path-segment arithmetic used by the scanner and the resolver.

use vstd::prelude::*;
use vstd::string::*;

verus! {

/// Relies on std's String::push: appends one character at the end.
#[verifier::external_body]
pub fn push_char(s: &mut String, c: char)
    ensures
        final(s)@ == old(s)@.push(c),
{
    s.push(c);
}

/// The characters of a string slice, as a vector.
pub fn str_to_chars(s: &str) -> (r: Vec<char>)
    ensures
        r@ == s@,
{
    let n = s.unicode_len();
    let mut r: Vec<char> = Vec::new();
    let mut i: usize = 0;
    while i < n
        invariant
            i <= n,
            n == s@.len(),
            r@ == s@.subrange(0, i as int),
        decreases n - i,
    {
        r.push(s.get_char(i));
        i += 1;
    }
    assert(s@.subrange(0, n as int) =~= s@);
    r
}

/// A string holding exactly the given characters.
pub fn chars_to_string(v: &Vec<char>) -> (r: String)
    ensures
        r@ == v@,
{
    let mut r = String::new();
    let mut i: usize = 0;
    while i < v.len()
        invariant
            i <= v.len(),
            r@ == v@.subrange(0, i as int),
        decreases v.len() - i,
    {
        push_char(&mut r, v[i]);
        i += 1;
    }
    assert(v@.subrange(0, v.len() as int) =~= v@);
    r
}

/// The pieces of `s` between occurrences of `sep`, in order; an empty
/// input yields one empty piece, and every separator opens a new piece.
pub open spec fn split_at_sep(s: Seq<char>, sep: char) -> Seq<Seq<char>>
    decreases s.len(),
{
    if s.len() == 0 {
        seq![Seq::<char>::empty()]
    } else {
        let rest = split_at_sep(s.drop_last(), sep);
        if s.last() == sep {
            rest.push(Seq::<char>::empty())
        } else {
            rest.update(rest.len() - 1, rest.last().push(s.last()))
        }
    }
}

pub proof fn lemma_split_at_sep_nonempty(s: Seq<char>, sep: char)
    ensures
        split_at_sep(s, sep).len() >= 1,
    decreases s.len(),
{
    if s.len() > 0 {
        lemma_split_at_sep_nonempty(s.drop_last(), sep);
    }
}

/// Splitting cannot yield more pieces than characters plus one, nor a
/// piece longer than the input.
pub proof fn lemma_split_at_sep_bounds(s: Seq<char>, sep: char)
    ensures
        split_at_sep(s, sep).len() <= s.len() + 1,
        forall|k: int|
            0 <= k < split_at_sep(s, sep).len() ==> (#[trigger] split_at_sep(s, sep)[k]).len()
                <= s.len(),
    decreases s.len(),
{
    if s.len() > 0 {
        lemma_split_at_sep_bounds(s.drop_last(), sep);
        lemma_split_at_sep_nonempty(s.drop_last(), sep);
    }
}

/// Splits a string into the pieces between occurrences of `sep`.
pub fn split_string(s: &str, sep: char) -> (r: Vec<String>)
    ensures
        r@.map_values(|p: String| p@) == split_at_sep(s@, sep),
{
    let chars = str_to_chars(s);
    let mut r: Vec<String> = Vec::new();
    let mut cur: Vec<char> = Vec::new();
    let mut i: usize = 0;
    proof {
        assert(s@.subrange(0, 0) =~= Seq::<char>::empty());
        assert(split_at_sep(s@.subrange(0, 0), sep) =~= seq![Seq::<char>::empty()]);
    }
    while i < chars.len()
        invariant
            i <= chars.len(),
            chars@ == s@,
            split_at_sep(s@.subrange(0, i as int), sep)
                == r@.map_values(|p: String| p@).push(cur@),
        decreases chars.len() - i,
    {
        let c = chars[i];
        proof {
            assert(s@.subrange(0, i + 1).drop_last() =~= s@.subrange(0, i as int));
            assert(s@.subrange(0, i + 1).last() == s@[i as int]);
        }
        if c == sep {
            let done = chars_to_string(&cur);
            r.push(done);
            cur = Vec::new();
            proof {
                assert(r@.map_values(|p: String| p@).push(cur@)
                    =~= split_at_sep(s@.subrange(0, i + 1), sep));
            }
        } else {
            cur.push(c);
            proof {
                let prev = split_at_sep(s@.subrange(0, i as int), sep);
                lemma_split_at_sep_nonempty(s@.subrange(0, i as int), sep);
                assert(prev.last() == cur@.drop_last());
                assert(r@.map_values(|p: String| p@).push(cur@)
                    =~= prev.update(prev.len() - 1, prev.last().push(s@[i as int])));
            }
        }
        i += 1;
    }
    let done = chars_to_string(&cur);
    r.push(done);
    proof {
        assert(s@.subrange(0, chars@.len() as int) =~= s@);
        assert(r@.map_values(|p: String| p@)
            =~= split_at_sep(s@, sep));
    }
    r
}

/// The characters of `s` after the last occurrence of `sep`; the whole
/// of `s` where `sep` does not occur.
pub open spec fn after_last_sep(s: Seq<char>, sep: char) -> Seq<char>
    decreases s.len(),
{
    if s.len() == 0 {
        s
    } else if s.last() == sep {
        Seq::<char>::empty()
    } else {
        after_last_sep(s.drop_last(), sep).push(s.last())
    }
}

/// The characters of `s` up to and excluding the last occurrence of
/// `sep`; empty where `sep` does not occur.
pub open spec fn before_last_sep(s: Seq<char>, sep: char) -> Seq<char>
    decreases s.len(),
{
    if s.len() == 0 {
        s
    } else if s.last() == sep {
        s.drop_last()
    } else {
        before_last_sep(s.drop_last(), sep)
    }
}

/// The last `/`-separated segment of a path.
pub fn last_path_segment(path: &str) -> (r: String)
    ensures
        r@ == after_last_sep(path@, '/'),
{
    let chars = str_to_chars(path);
    let mut cut: usize = 0;
    let mut i: usize = 0;
    while i < chars.len()
        invariant
            i <= chars.len(),
            chars@ == path@,
            cut <= i,
            after_last_sep(path@.subrange(0, i as int), '/')
                == path@.subrange(cut as int, i as int),
        decreases chars.len() - i,
    {
        proof {
            assert(path@.subrange(0, i + 1).drop_last() =~= path@.subrange(0, i as int));
            assert(path@.subrange(0, i + 1).last() == path@[i as int]);
        }
        if chars[i] == '/' {
            cut = i + 1;
            proof {
                assert(after_last_sep(path@.subrange(0, i + 1), '/')
                    =~= path@.subrange(cut as int, i + 1));
            }
        } else {
            proof {
                assert(after_last_sep(path@.subrange(0, i + 1), '/')
                    =~= path@.subrange(cut as int, i + 1));
            }
        }
        i += 1;
    }
    let mut out: Vec<char> = Vec::new();
    let mut j: usize = cut;
    while j < chars.len()
        invariant
            cut <= j <= chars.len(),
            chars@ == path@,
            out@ == path@.subrange(cut as int, j as int),
        decreases chars.len() - j,
    {
        out.push(chars[j]);
        j += 1;
    }
    proof {
        assert(path@.subrange(0, chars@.len() as int) =~= path@);
    }
    chars_to_string(&out)
}

/// The `/`-separated parent of a path: everything before the last `/`,
/// empty where the path has no `/`.
pub fn parent_path(path: &str) -> (r: String)
    ensures
        r@ == before_last_sep(path@, '/'),
{
    let chars = str_to_chars(path);
    let mut cut: usize = 0;
    let mut seen: bool = false;
    let mut i: usize = 0;
    while i < chars.len()
        invariant
            i <= chars.len(),
            chars@ == path@,
            cut <= i,
            seen ==> cut >= 1 && path@[cut - 1] == '/',
            before_last_sep(path@.subrange(0, i as int), '/')
                == if seen { path@.subrange(0, cut - 1) } else { Seq::<char>::empty() },
        decreases chars.len() - i,
    {
        proof {
            assert(path@.subrange(0, i + 1).drop_last() =~= path@.subrange(0, i as int));
            assert(path@.subrange(0, i + 1).last() == path@[i as int]);
        }
        if chars[i] == '/' {
            cut = i + 1;
            seen = true;
        }
        i += 1;
    }
    proof {
        assert(path@.subrange(0, chars@.len() as int) =~= path@);
    }
    let mut out: Vec<char> = Vec::new();
    let stop: usize = if seen { cut - 1 } else { 0 };
    let mut j: usize = 0;
    while j < stop
        invariant
            j <= stop,
            stop <= chars.len(),
            chars@ == path@,
            out@ == path@.subrange(0, j as int),
        decreases stop - j,
    {
        out.push(chars[j]);
        j += 1;
    }
    proof {
        if !seen {
            assert(out@ =~= Seq::<char>::empty());
        }
    }
    chars_to_string(&out)
}

/// One unrolling of `Seq::filter` from the back.
pub proof fn lemma_filter_snoc<A>(s: Seq<A>, pred: spec_fn(A) -> bool)
    requires
        s.len() > 0,
    ensures
        pred(s.last()) ==> s.filter(pred) == s.drop_last().filter(pred).push(s.last()),
        !pred(s.last()) ==> s.filter(pred) == s.drop_last().filter(pred),
{
    reveal(Seq::filter);
}

/// Whether two strings hold the same characters.
pub fn str_eq(a: &str, b: &str) -> (r: bool)
    ensures
        r <==> a@ == b@,
{
    let an = a.unicode_len();
    let bn = b.unicode_len();
    if an != bn {
        proof {
            assert(a@ != b@);
        }
        return false;
    }
    let mut i: usize = 0;
    while i < an
        invariant
            i <= an,
            an == a@.len(),
            an == b@.len(),
            forall|k: int| 0 <= k < i ==> a@[k] == b@[k],
        decreases an - i,
    {
        if a.get_char(i) != b.get_char(i) {
            return false;
        }
        i += 1;
    }
    proof {
        assert(a@ =~= b@);
    }
    true
}

} // verus!
