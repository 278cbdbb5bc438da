//! Cross-file navigation targets: package references resolved through
//! the workspace index, subdirectory inclusions resolved against the
//! document's directory, and the definition-mode filter that drops the
//! requesting selection itself.

use crate::protocol::{spec_zero_range, zero_range, DocLocation, DocLocationLink, DocRange};
use crate::scan::WorkspaceIndex;
use crate::strutil::before_last_sep;
use vstd::prelude::*;
use vstd::string::*;

verus! {

/// One location per candidate path of the package record named by the
/// argument, each at the start of its file — the coarse-grained jump
/// target; none where the index knows no such package.
pub fn cmpfindpackage(input: &str, index: &WorkspaceIndex) -> (r: Option<Vec<DocLocation>>)
    requires
        index.wf(),
    ensures
        r is Some <==> index.has_package(input@),
        r matches Some(v) ==> {
            let record = index.spec_package(input@);
            &&& v@.len() == record.tojump@.len()
            &&& forall|k: int|
                0 <= k < v@.len() ==> (#[trigger] v@[k]).uri@ == record.tojump@[k]@ && v@[k].range
                    == spec_zero_range()
        },
{
    let found = index.find_package(input);
    match found {
        None => None,
        Some(record) => {
            let mut v: Vec<DocLocation> = Vec::new();
            let mut k: usize = 0;
            while k < record.tojump.len()
                invariant
                    k <= record.tojump@.len(),
                    v@.len() == k,
                    forall|m: int|
                        0 <= m < k ==> (#[trigger] v@[m]).uri@ == record.tojump@[m]@ && v@[m].range
                            == spec_zero_range(),
                decreases record.tojump@.len() - k,
            {
                v.push(DocLocation { uri: record.tojump[k].clone(), range: zero_range() });
                k += 1;
            }
            Some(v)
        },
    }
}

/// The path of the top-level script that a subdirectory-inclusion
/// argument names, seen from the document at `localpath`:
/// `<document's directory>/<argument>/CMakeLists.txt`.
pub open spec fn subdirectory_target(localpath: Seq<char>, subpath: Seq<char>) -> Seq<char> {
    before_last_sep(localpath, '/') + seq!['/'] + subpath + seq!['/'] + "CMakeLists.txt"@
}

/// Computes the target script path for a subdirectory-inclusion
/// argument.
pub fn subdirectory_script_path(localpath: &str, subpath: &str) -> (r: String)
    ensures
        r@ == subdirectory_target(localpath@, subpath@),
{
    let mut r = crate::strutil::parent_path(localpath);
    r.append("/");
    r.append(subpath);
    r.append("/");
    r.append("CMakeLists.txt");
    proof {
        reveal_strlit("/");
        assert("/"@ =~= seq!['/']);
        assert(r@ =~= subdirectory_target(localpath@, subpath@));
    }
    r
}

/// Exactly one location, at the start of the target script, where that
/// script exists on disk; none otherwise — a dangling subdirectory
/// reference is not an error here. The caller reports whether the
/// target exists, since only it can look at the filesystem.
pub fn cmpsubdirectory(localpath: &str, subpath: &str, target_exists: bool) -> (r: Option<
    Vec<DocLocation>,
>)
    ensures
        target_exists ==> (r matches Some(v) && v@.len() == 1 && v@[0].uri@
            == subdirectory_target(localpath@, subpath@) && v@[0].range == spec_zero_range()),
        !target_exists ==> r is None,
{
    if target_exists {
        let target = subdirectory_script_path(localpath, subpath);
        let mut v: Vec<DocLocation> = Vec::new();
        v.push(DocLocation { uri: target, range: zero_range() });
        Some(v)
    } else {
        None
    }
}

/// The locations kept by definition mode: all of them when the request
/// had no enclosing selection, otherwise those whose range differs from
/// it — never the selection itself.
pub open spec fn kept_locations(
    locations: Seq<DocLocation>,
    origin: Option<DocRange>,
) -> Seq<DocLocation> {
    match origin {
        None => locations,
        Some(o) => locations.filter(|l: DocLocation| l.range != o),
    }
}

/// Turns resolved locations into navigation links, dropping, in the
/// presence of an enclosing selection, every result that points right
/// back at it.
pub fn filter_self_links(locations: &Vec<DocLocation>, origin: Option<DocRange>) -> (r: Vec<
    DocLocationLink,
>)
    ensures
        r@.len() == kept_locations(locations@, origin).len(),
        forall|k: int|
            0 <= k < r@.len() ==> {
                let kept = kept_locations(locations@, origin)[k];
                &&& (#[trigger] r@[k]).target_uri@ == kept.uri@
                &&& r@[k].target_range == kept.range
                &&& r@[k].target_selection_range == kept.range
                &&& r@[k].origin_selection_range == origin
            },
{
    let ghost pred = |l: DocLocation| l.range != origin.unwrap();
    let mut r: Vec<DocLocationLink> = Vec::new();
    let mut i: usize = 0;
    while i < locations.len()
        invariant
            i <= locations@.len(),
            r@.len() == kept_locations(locations@.subrange(0, i as int), origin).len(),
            forall|k: int|
                0 <= k < r@.len() ==> {
                    let kept = kept_locations(locations@.subrange(0, i as int), origin)[k];
                    &&& (#[trigger] r@[k]).target_uri@ == kept.uri@
                    &&& r@[k].target_range == kept.range
                    &&& r@[k].target_selection_range == kept.range
                    &&& r@[k].origin_selection_range == origin
                },
        decreases locations@.len() - i,
    {
        let loc = &locations[i];
        proof {
            if origin is Some {
                crate::strutil::lemma_filter_snoc(
                    locations@.subrange(0, i + 1),
                    |l: DocLocation| l.range != origin.unwrap(),
                );
            }
            assert(locations@.subrange(0, i + 1).drop_last() =~= locations@.subrange(0, i as int));
            assert(locations@.subrange(0, i + 1).last() == locations@[i as int]);
        }
        let keep = match &origin {
            None => true,
            Some(o) => !ranges_equal(&loc.range, o),
        };
        if keep {
            r.push(DocLocationLink {
                origin_selection_range: origin,
                target_uri: loc.uri.clone(),
                target_range: loc.range,
                target_selection_range: loc.range,
            });
        }
        i += 1;
        proof {
            assert(kept_locations(locations@.subrange(0, i as int), origin).len() == r@.len());
        }
    }
    proof {
        assert(locations@.subrange(0, locations@.len() as int) =~= locations@);
    }
    r
}

/// Whether two ranges are the same region.
pub fn ranges_equal(a: &DocRange, b: &DocRange) -> (r: bool)
    ensures
        r <==> *a == *b,
{
    a.start.line == b.start.line && a.start.character == b.start.character && a.end.line
        == b.end.line && a.end.character == b.end.character
}

/// Definition mode never answers with the requesting selection itself,
/// while references mode on the same input keeps every location,
/// including that self-reference: the definition results are exactly
/// the reference results other than the selection.
pub proof fn lemma_definition_excludes_self(locations: Seq<DocLocation>, o: DocRange)
    ensures
        forall|k: int|
            0 <= k < kept_locations(locations, Some(o)).len() ==> (#[trigger] kept_locations(
                locations,
                Some(o),
            )[k]).range != o,
        forall|k: int|
            0 <= k < kept_locations(locations, Some(o)).len() ==> locations.contains(
                #[trigger] kept_locations(locations, Some(o))[k],
            ),
        forall|k: int|
            0 <= k < locations.len() && (#[trigger] locations[k]).range != o ==> kept_locations(
                locations,
                Some(o),
            ).contains(locations[k]),
        kept_locations(locations, None) == locations,
    decreases locations.len(),
{
    let pred = |l: DocLocation| l.range != o;
    if locations.len() > 0 {
        lemma_definition_excludes_self(locations.drop_last(), o);
        crate::strutil::lemma_filter_snoc(locations, pred);
        let prev = locations.drop_last().filter(pred);
        let cur = locations.filter(pred);
        assert(kept_locations(locations.drop_last(), Some(o)) == prev);
        assert(kept_locations(locations, Some(o)) == cur);
        assert forall|k: int| 0 <= k < cur.len() implies (#[trigger] cur[k]).range != o
            && locations.contains(cur[k]) by {
            if k < prev.len() {
                assert(cur[k] == prev[k]);
                assert(kept_locations(locations.drop_last(), Some(o))[k] == prev[k]);
                assert(locations.drop_last().contains(prev[k]));
                let m = choose|m: int|
                    0 <= m < locations.drop_last().len() && locations.drop_last()[m] == prev[k];
                assert(locations.drop_last()[m] == locations[m]);
                assert(locations[m] == prev[k]);
            } else {
                assert(cur[k] == locations.last());
                assert(locations[locations.len() - 1] == locations.last());
            }
        }
        assert forall|k: int|
            0 <= k < locations.len() && (#[trigger] locations[k]).range != o implies cur.contains(
            locations[k],
        ) by {
            if k < locations.len() - 1 {
                assert(locations.drop_last()[k] == locations[k]);
                assert(prev.contains(locations[k]));
                let m = choose|m: int| 0 <= m < prev.len() && prev[m] == locations[k];
                assert(cur[m] == locations[k]);
            } else {
                assert(cur.last() == locations.last());
                assert(cur[cur.len() - 1] == locations[k]);
            }
        }
    } else {
        reveal(Seq::filter);
    }
}

} // verus!
