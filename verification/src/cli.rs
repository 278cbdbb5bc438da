//! Command-line argument handling: the one `--stdio` flag, and the
//! backward-compatible rewrite that lets the binary be invoked as a
//! wrapped server command (`booster server_cmd args...`) by inserting a
//! `--` separator before the trailing words.

use vstd::prelude::*;
use vstd::string::*;

verus! {

/// The command-line options.
#[derive(Debug, Clone, Copy, PartialEq, Eq, Structural)]
pub struct Cli {
    /// Run over stdio; the default and only transport.
    pub stdio: bool,
}

/// Whether some argument is the literal separator `--`.
pub open spec fn has_separator(args: Seq<String>) -> bool {
    exists|i: int| 0 <= i < args.len() && args[i]@ == "--"@
}

/// Whether the argument list gets the backward-compatible rewrite: a
/// second word that does not start with a dash and no separator yet.
/// The rewrite inserts `--` right after the program name, so every
/// later word is read as an operand, not a flag.
pub open spec fn needs_separator(args: Seq<String>) -> bool {
    args.len() > 1 && !(args[1]@.len() > 0 && args[1]@[0] == '-') && !has_separator(args)
}

/// Whether `--stdio` occurs before any `--` separator.
pub open spec fn stdio_flag(args: Seq<String>) -> bool {
    exists|i: int|
        0 <= i < args.len() && args[i]@ == "--stdio"@ && (forall|j: int|
            0 <= j < i ==> args[j]@ != "--"@)
}

/// Parses the command line: applies the backward-compatible rewrite,
/// then reads the flags standing before any `--` separator. After the
/// rewrite only the program name itself stands before the separator.
pub fn parse_args(args: Vec<String>) -> (r: Cli)
    ensures
        r.stdio == if needs_separator(args@) {
            args@[0]@ == "--stdio"@
        } else {
            stdio_flag(args@)
        },
{
    let stdio_word = String::from_str("--stdio");

    let mut found_sep = false;
    let mut k: usize = 0;
    while k < args.len()
        invariant
            k <= args@.len(),
            found_sep <==> exists|i: int| 0 <= i < k && args@[i]@ == "--"@,
        decreases args@.len() - k,
    {
        if is_plain_separator(&args[k]) {
            found_sep = true;
            k = args.len();
        } else {
            k += 1;
        }
    }

    let rewrite = if args.len() > 1 && !found_sep {
        let second = &args[1];
        second.as_str().unicode_len() == 0 || second.as_str().get_char(0) != '-'
    } else {
        false
    };
    proof {
        assert(rewrite == needs_separator(args@));
    }

    if rewrite {
        let first_is_stdio = args[0].eq(&stdio_word);
        return Cli { stdio: first_is_stdio };
    }

    let mut stdio = false;
    let mut stopped = false;
    let mut i: usize = 0;
    while i < args.len()
        invariant
            i <= args@.len(),
            stdio_word@ == "--stdio"@,
            !stopped && !stdio ==> forall|j: int|
                0 <= j < i ==> args@[j]@ != "--"@ && args@[j]@ != "--stdio"@,
            stdio ==> stdio_flag(args@),
            stopped ==> !stdio && (exists|m: int| 0 <= m < i && args@[m]@ == "--"@) && (forall|
                j: int,
            | 0 <= j < i ==> args@[j]@ != "--stdio"@ || (exists|m: int|
                0 <= m < j && args@[m]@ == "--"@)),
        decreases args@.len() - i,
    {
        if !stopped && !stdio {
            let word = &args[i];
            if word.eq(&stdio_word) {
                proof {
                    assert(args@[i as int]@ == "--stdio"@);
                }
                stdio = true;
            } else if is_plain_separator(word) {
                proof {
                    assert forall|j: int|
                        0 <= j < i + 1 implies args@[j]@ != "--stdio"@ || (exists|m: int|
                        0 <= m < j && args@[m]@ == "--"@) by {
                        if j < i {
                            assert(args@[j]@ != "--stdio"@);
                        } else {
                            assert(args@[j]@ == "--"@ || args@[j]@ != "--stdio"@);
                        }
                    }
                }
                stopped = true;
            }
        }
        i += 1;
    }
    proof {
        if !stdio && !stopped {
            assert(!stdio_flag(args@)) by {
                if stdio_flag(args@) {
                    let w = choose|w: int|
                        0 <= w < args@.len() && args@[w]@ == "--stdio"@ && (forall|j: int|
                            0 <= j < w ==> args@[j]@ != "--"@);
                    assert(args@[w]@ != "--stdio"@);
                }
            }
        }
        if stopped {
            assert(!stdio_flag(args@)) by {
                if stdio_flag(args@) {
                    let w = choose|w: int|
                        0 <= w < args@.len() && args@[w]@ == "--stdio"@ && (forall|j: int|
                            0 <= j < w ==> args@[j]@ != "--"@);
                    assert(args@[w]@ != "--stdio"@ || (exists|m: int|
                        0 <= m < w && args@[m]@ == "--"@));
                }
            }
        }
    }
    Cli { stdio }
}

/// Whether a word is exactly the two-dash separator.
fn is_plain_separator(word: &String) -> (r: bool)
    ensures
        r <==> word@ == "--"@,
{
    proof {
        reveal_strlit("--");
    }
    let s = word.as_str();
    let r = s.unicode_len() == 2 && s.get_char(0) == '-' && s.get_char(1) == '-';
    proof {
        if r {
            assert(word@ =~= "--"@);
        }
    }
    r
}

} // verus!
