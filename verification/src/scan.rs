//! The workspace index and the background-scan discipline.
//!
//! A scan produces a whole `WorkspaceIndex`; the scheduler publishes it
//! atomically, and readers always see either the previous complete index
//! or a newer complete one, never a mix. At most one scan per root is in
//! flight; scheduling a second one first awaits the first to completion
//! (backpressure, not cancellation).

use crate::utils::CMakePackage;
use vstd::prelude::*;
use vstd::string::*;

verus! {

/// The cross-file index one scan produces: package records keyed by
/// name, and the subdirectory-inclusion edges between top-level scripts.
/// Immutable once built; a rescan replaces it wholesale.
pub struct WorkspaceIndex {
    pub packages: Vec<CMakePackage>,
    /// Edges `(parent script path, child script path)`.
    pub subdirs: Vec<(String, String)>,
}

impl WorkspaceIndex {
    /// No two package records share a name.
    pub open spec fn wf(self) -> bool {
        forall|i: int, j: int|
            0 <= i < j < self.packages@.len() ==> (#[trigger] self.packages@[i]).name@ != (
            #[trigger] self.packages@[j]).name@
    }

    /// Whether a record of the given name is present.
    pub open spec fn has_package(self, name: Seq<char>) -> bool {
        exists|i: int| 0 <= i < self.packages@.len() && (#[trigger] self.packages@[i]).name@ == name
    }

    /// The record of the given name, where one is present.
    pub open spec fn spec_package(self, name: Seq<char>) -> CMakePackage {
        self.packages@[choose|i: int|
            0 <= i < self.packages@.len() && (#[trigger] self.packages@[i]).name@ == name]
    }

    /// An index holding nothing.
    pub fn empty() -> (r: WorkspaceIndex)
        ensures
            r.packages@.len() == 0,
            r.subdirs@.len() == 0,
            r.wf(),
    {
        WorkspaceIndex { packages: Vec::new(), subdirs: Vec::new() }
    }

    /// Looks a package name up in the index.
    pub fn find_package(&self, name: &str) -> (r: Option<&CMakePackage>)
        requires
            self.wf(),
        ensures
            r is Some <==> self.has_package(name@),
            r matches Some(p) ==> *p == self.spec_package(name@) && p.name@ == name@,
    {
        let mut i: usize = 0;
        while i < self.packages.len()
            invariant
                i <= self.packages@.len(),
                self.wf(),
                forall|k: int| 0 <= k < i ==> (#[trigger] self.packages@[k]).name@ != name@,
            decreases self.packages@.len() - i,
        {
            if crate::strutil::str_eq(self.packages[i].name.as_str(), name) {
                proof {
                    assert(self.packages@[i as int].name@ == name@);
                    let w = choose|w: int|
                        0 <= w < self.packages@.len() && (#[trigger] self.packages@[w]).name@
                            == name@;
                    if w != i {
                        assert(self.packages@[w].name@ != self.packages@[i as int].name@);
                    }
                }
                return Some(&self.packages[i]);
            }
            i += 1;
        }
        None
    }

    /// Merges one discovery into the index: a new name is appended; a
    /// known name keeps its record and only gains the candidate
    /// locations it did not yet hold. Nothing else changes.
    pub fn merge_package(&mut self, pkg: CMakePackage)
        requires
            old(self).wf(),
        ensures
            final(self).wf(),
            final(self).subdirs == old(self).subdirs,
            !old(self).has_package(pkg.name@) ==> final(self).packages@ == old(
                self,
            ).packages@.push(pkg),
            old(self).has_package(pkg.name@) ==> {
                exists|i: int|
                    {
                        &&& 0 <= i < old(self).packages@.len()
                        &&& (#[trigger] old(self).packages@[i]).name@ == pkg.name@
                        &&& final(self).packages@.len() == old(self).packages@.len()
                        &&& (forall|k: int|
                            0 <= k < old(self).packages@.len() && k != i
                                ==> final(self).packages@[k] == old(self).packages@[k])
                        &&& record_is_merge_of(
                            final(self).packages@[i],
                            old(self).packages@[i],
                            pkg,
                        )
                    }
            },
    {
        let mut i: usize = 0;
        while i < self.packages.len()
            invariant
                i <= self.packages@.len(),
                *self == *old(self),
                old(self).wf(),
                forall|k: int| 0 <= k < i ==> (#[trigger] self.packages@[k]).name@ != pkg.name@,
            decreases self.packages@.len() - i,
        {
            if crate::strutil::str_eq(self.packages[i].name.as_str(), pkg.name.as_str()) {
                let ghost before = self.packages@;
                let merged = merge_tojump(&self.packages[i], pkg);
                self.packages.set(i, merged);
                proof {
                    assert((before[i as int]).name@ == pkg.name@);
                    assert forall|x: int, y: int|
                        0 <= x < y < self.packages@.len() implies (
                    #[trigger] self.packages@[x]).name@ != (#[trigger] self.packages@[y]).name@ by {
                        assert(before[x].name@ != before[y].name@);
                        assert(self.packages@[x].name@ == before[x].name@);
                        assert(self.packages@[y].name@ == before[y].name@);
                    }
                }
                return ;
            }
            i += 1;
        }
        proof {
            if self.has_package(pkg.name@) {
                let w = choose|w: int|
                    0 <= w < self.packages@.len() && (#[trigger] self.packages@[w]).name@
                        == pkg.name@;
                assert(self.packages@[w].name@ != pkg.name@);
            }
        }
        let ghost before = self.packages@;
        self.packages.push(pkg);
        proof {
            assert forall|x: int, y: int|
                0 <= x < y < self.packages@.len() implies (#[trigger] self.packages@[x]).name@
                != (#[trigger] self.packages@[y]).name@ by {
                if y < before.len() {
                    assert(before[x].name@ != before[y].name@);
                } else {
                    assert(before[x].name@ != pkg.name@);
                }
            }
        }
    }
}

/// Whether `merged` keeps `base`'s identity and metadata and holds
/// exactly `base`'s candidate locations followed by those of `incoming`
/// that `base` lacked.
pub open spec fn record_is_merge_of(
    merged: CMakePackage,
    base: CMakePackage,
    incoming: CMakePackage,
) -> bool {
    &&& merged.name@ == base.name@
    &&& merged.filetype == base.filetype
    &&& merged.filepath@ == base.filepath@
    &&& match (merged.version, base.version) {
        (Some(a), Some(b)) => a@ == b@,
        (None, None) => true,
        _ => false,
    }
    &&& merged.tojump@.map_values(|p: String| p@) == merged_tojump(
        base.tojump@.map_values(|p: String| p@),
        incoming.tojump@.map_values(|p: String| p@),
    )
}

/// The candidate-location views after a merge: those of `base`, then
/// those of `incoming` not already present.
pub open spec fn merged_tojump(base: Seq<Seq<char>>, incoming: Seq<Seq<char>>) -> Seq<Seq<char>> {
    base + incoming.filter(|p: Seq<char>| !base.contains(p))
}

/// Appends to `base`'s record the locations of `incoming` it lacks.
fn merge_tojump(base: &CMakePackage, incoming: CMakePackage) -> (r: CMakePackage)
    ensures
        r.name == base.name,
        r.filetype == base.filetype,
        r.filepath == base.filepath,
        r.version == base.version,
        r.tojump@.map_values(|p: String| p@) == merged_tojump(
            base.tojump@.map_values(|p: String| p@),
            incoming.tojump@.map_values(|p: String| p@),
        ),
{
    let mut tojump: Vec<String> = Vec::new();
    let mut i: usize = 0;
    while i < base.tojump.len()
        invariant
            i <= base.tojump@.len(),
            tojump@ == base.tojump@.subrange(0, i as int),
        decreases base.tojump@.len() - i,
    {
        tojump.push(base.tojump[i].clone());
        i += 1;
    }
    proof {
        assert(tojump@ =~= base.tojump@);
    }
    let ghost base_views = base.tojump@.map_values(|p: String| p@);
    let ghost inc_views = incoming.tojump@.map_values(|p: String| p@);
    let mut j: usize = 0;
    while j < incoming.tojump.len()
        invariant
            j <= incoming.tojump@.len(),
            base_views == base.tojump@.map_values(|p: String| p@),
            inc_views == incoming.tojump@.map_values(|p: String| p@),
            tojump@.map_values(|p: String| p@) == base_views + inc_views.subrange(
                0,
                j as int,
            ).filter(|p: Seq<char>| !base_views.contains(p)),
        decreases incoming.tojump@.len() - j,
    {
        let candidate = &incoming.tojump[j];
        let dup = contains_string(&base.tojump, candidate.as_str());
        proof {
            crate::strutil::lemma_filter_snoc(
                inc_views.subrange(0, j + 1),
                |p: Seq<char>| !base_views.contains(p),
            );
            assert(inc_views.subrange(0, j + 1).drop_last() =~= inc_views.subrange(0, j as int));
            assert(inc_views.subrange(0, j + 1).last() == candidate@);
        }
        if !dup {
            let ghost tprev = tojump@;
            tojump.push(candidate.clone());
            proof {
                let pushed = tojump@.last();
                assert(tojump@ == tprev.push(pushed));
                assert(pushed@ == candidate@);
                tprev.lemma_push_map_commute(|p: String| p@, pushed);
                assert(tojump@.map_values(|p: String| p@) =~~= base_views + inc_views.subrange(
                    0,
                    j + 1,
                ).filter(|p: Seq<char>| !base_views.contains(p)));
            }
        } else {
            proof {
                assert(tojump@.map_values(|p: String| p@) =~~= base_views + inc_views.subrange(
                    0,
                    j + 1,
                ).filter(|p: Seq<char>| !base_views.contains(p)));
            }
        }
        j += 1;
    }
    proof {
        assert(inc_views.subrange(0, incoming.tojump@.len() as int) =~= inc_views);
    }
    CMakePackage {
        name: base.name.clone(),
        filetype: base.filetype,
        filepath: base.filepath.clone(),
        version: match &base.version {
            Some(v) => Some(v.clone()),
            None => None,
        },
        tojump,
    }
}

/// Whether some element of `v` holds exactly the characters of `w`.
pub fn contains_string(v: &Vec<String>, w: &str) -> (r: bool)
    ensures
        r <==> v@.map_values(|p: String| p@).contains(w@),
{
    let ghost views = v@.map_values(|p: String| p@);
    let mut i: usize = 0;
    while i < v.len()
        invariant
            i <= v@.len(),
            views == v@.map_values(|p: String| p@),
            forall|k: int| 0 <= k < i ==> views[k] != w@,
        decreases v@.len() - i,
    {
        if crate::strutil::str_eq(v[i].as_str(), w) {
            proof {
                assert(views[i as int] == w@);
            }
            return true;
        }
        i += 1;
    }
    proof {
        if views.contains(w@) {
            let k = choose|k: int| 0 <= k < views.len() && views[k] == w@;
            assert(views[k] != w@);
        }
    }
    false
}

/// One background scan: the root it was asked for and the index it
/// computed.
pub struct ScanTask {
    pub root: String,
    pub result: WorkspaceIndex,
}

/// The single active-scan slot and the published index snapshot.
///
/// `published` is only ever replaced by the whole result of a completed
/// scan; `in_flight` holds at most one task per workspace root.
pub struct ScanScheduler {
    pub published: WorkspaceIndex,
    pub in_flight: Option<ScanTask>,
}

impl ScanScheduler {
    /// A scheduler holding an empty index and no running scan.
    pub fn new() -> (r: ScanScheduler)
        ensures
            r.published.packages@.len() == 0,
            r.published.subdirs@.len() == 0,
            r.in_flight is None,
    {
        ScanScheduler { published: WorkspaceIndex::empty(), in_flight: None }
    }

    /// The current snapshot, always a whole index: the one published by
    /// the last completed scan, untouched by any scan still in flight.
    pub fn read_index(&self) -> (r: &WorkspaceIndex)
        ensures
            *r == self.published,
    {
        &self.published
    }

    /// Awaits the scan in flight, if any, and publishes its whole
    /// result at once.
    pub fn complete(&mut self)
        ensures
            *final(self) == spec_complete(*old(self)),
    {
        let slot = self.in_flight.take();
        match slot {
            Some(t) => {
                self.published = t.result;
            },
            None => {},
        }
    }

    /// Schedules a scan. A scan already in flight is awaited to
    /// completion and published first; only then is the new one
    /// installed — backpressure, never two writers racing on the index.
    pub fn schedule(&mut self, task: ScanTask)
        ensures
            *final(self) == spec_schedule(*old(self), task),
    {
        self.complete();
        self.in_flight = Some(task);
    }
}

/// The scheduler after awaiting and publishing the scan in flight.
pub open spec fn spec_complete(s: ScanScheduler) -> ScanScheduler {
    match s.in_flight {
        Some(t) => ScanScheduler { published: t.result, in_flight: None },
        None => ScanScheduler { published: s.published, in_flight: None },
    }
}

/// The scheduler after scheduling a task: the previous scan, if any,
/// completed and published first, then the task installed in the slot.
pub open spec fn spec_schedule(s: ScanScheduler, task: ScanTask) -> ScanScheduler {
    ScanScheduler { published: spec_complete(s).published, in_flight: Some(task) }
}

/// A reader during scan activity sees the pre-scan or the post-scan
/// index in full, never a mix: each scheduler step leaves the published
/// snapshot either exactly as it was or exactly at a completed scan's
/// whole result.
pub proof fn lemma_index_never_partial(s: ScanScheduler, task: ScanTask)
    ensures
        spec_complete(s).published == s.published || (s.in_flight matches Some(t)
            && spec_complete(s).published == t.result),
        spec_schedule(s, task).published == s.published || (s.in_flight matches Some(t)
            && spec_schedule(s, task).published == t.result),
{
}

/// Scheduling scan B while scan A is in flight: A is completed and its
/// result published before B is installed, and once B completes the
/// index holds exactly B's result — never an interleaving of A and B.
pub proof fn lemma_scan_backpressure(s0: ScanScheduler, a: ScanTask, b: ScanTask)
    requires
        s0.in_flight == Some(a),
    ensures
        spec_schedule(s0, b).published == a.result,
        spec_schedule(s0, b).in_flight == Some(b),
        spec_complete(spec_schedule(s0, b)).published == b.result,
{
}

// ---------------------------------------------------------------------
// The workspace walk
// ---------------------------------------------------------------------

/// The argument texts of the invocations of `cmd` on one line.
pub open spec fn cmd_args_row(l: Seq<char>, cmd: Seq<char>) -> Seq<Seq<char>> {
    match crate::grammar::line_shape(l) {
        crate::grammar::LineShape::Cmd { args, .. } => if crate::complete::line_cmd_name(l)
            == cmd {
            Seq::new(args.len(), |k: int| l.subrange(args[k].0, args[k].1))
        } else {
            Seq::empty()
        },
        _ => Seq::empty(),
    }
}

/// The argument texts of every invocation of `cmd` in the first `n`
/// lines, in order.
pub open spec fn cmd_args(lines: Seq<Seq<char>>, n: int, cmd: Seq<char>) -> Seq<Seq<char>>
    decreases n,
{
    if n <= 0 {
        Seq::empty()
    } else {
        cmd_args(lines, n - 1, cmd) + cmd_args_row(lines[n - 1], cmd)
    }
}

/// Collects the arguments of every invocation of `cmd` in a document.
pub fn command_args(source: &[String], cmd: &str) -> (r: Vec<String>)
    ensures
        r@.map_values(|s: String| s@) == cmd_args(
            crate::utils::lines_view(source@),
            source@.len() as int,
            cmd@,
        ),
{
    let ghost lines = crate::utils::lines_view(source@);
    let mut r: Vec<String> = Vec::new();
    let mut row: usize = 0;
    while row < source.len()
        invariant
            row <= source@.len(),
            lines == crate::utils::lines_view(source@),
            r@.map_values(|s: String| s@) == cmd_args(lines, row as int, cmd@),
        decreases source@.len() - row,
    {
        let text = &source[row];
        let _n = text.as_str().unicode_len();
        proof {
            assert(lines[row as int] == text@);
        }
        match crate::grammar::parse_line(text.as_str(), row) {
            crate::grammar::LineParse::Command(inv) => {
                if crate::strutil::str_eq(inv.name.as_str(), cmd) {
                    let ghost rowargs = cmd_args_row(text@, cmd@);
                    let mut k: usize = 0;
                    while k < inv.args.len()
                        invariant
                            k <= inv.args@.len(),
                            crate::grammar::inv_matches_line(inv, text@, row as int),
                            rowargs == cmd_args_row(text@, cmd@),
                            crate::complete::line_cmd_name(text@) == cmd@,
                            inv.args@.len() == rowargs.len(),
                            forall|m: int|
                                0 <= m < rowargs.len() ==> (#[trigger] rowargs[m])
                                    == inv.args@[m].text@,
                            r@.map_values(|s: String| s@) == cmd_args(lines, row as int, cmd@)
                                + rowargs.subrange(0, k as int),
                        decreases inv.args@.len() - k,
                    {
                        let ghost rprev = r@;
                        r.push(inv.args[k].text.clone());
                        proof {
                            rprev.lemma_push_map_commute(|s: String| s@, r@.last());
                            assert(r@.map_values(|s: String| s@) =~~= cmd_args(
                                lines,
                                row as int,
                                cmd@,
                            ) + rowargs.subrange(0, k + 1));
                        }
                        k += 1;
                    }
                    proof {
                        assert(rowargs.subrange(0, rowargs.len() as int) =~= rowargs);
                        assert(cmd_args(lines, row + 1, cmd@) == cmd_args(lines, row as int, cmd@)
                            + rowargs);
                    }
                } else {
                    proof {
                        assert(cmd_args_row(text@, cmd@) =~= Seq::<Seq<char>>::empty());
                        assert(r@.map_values(|s: String| s@) =~~= cmd_args(lines, row + 1, cmd@));
                    }
                }
            },
            _ => {
                proof {
                    assert(cmd_args_row(text@, cmd@) =~= Seq::<Seq<char>>::empty());
                    assert(r@.map_values(|s: String| s@) =~~= cmd_args(lines, row + 1, cmd@));
                }
            },
        }
        row += 1;
    }
    r
}

/// A fresh copy of a package record, contents unchanged.
pub fn clone_package(p: &CMakePackage) -> (r: CMakePackage)
    ensures
        r.name@ == p.name@,
        r.filetype == p.filetype,
        r.filepath@ == p.filepath@,
        match (r.version, p.version) {
            (Some(a), Some(b)) => a@ == b@,
            (None, None) => true,
            _ => false,
        },
        r.tojump@.map_values(|t: String| t@) == p.tojump@.map_values(|t: String| t@),
{
    let mut tojump: Vec<String> = Vec::new();
    let mut i: usize = 0;
    while i < p.tojump.len()
        invariant
            i <= p.tojump@.len(),
            tojump@.len() == i,
            forall|m: int| 0 <= m < i ==> (#[trigger] tojump@[m])@ == p.tojump@[m]@,
        decreases p.tojump@.len() - i,
    {
        tojump.push(p.tojump[i].clone());
        i += 1;
    }
    proof {
        assert(tojump@.map_values(|t: String| t@) =~~= p.tojump@.map_values(|t: String| t@));
    }
    CMakePackage {
        name: p.name.clone(),
        filetype: p.filetype,
        filepath: p.filepath.clone(),
        version: match &p.version {
            Some(v) => Some(v.clone()),
            None => None,
        },
        tojump,
    }
}

/// Whether a name stands in a catalog of package records.
pub open spec fn catalog_has(catalog: Seq<CMakePackage>, name: Seq<char>) -> bool {
    exists|j: int| 0 <= j < catalog.len() && (#[trigger] catalog[j]).name@ == name
}

/// Finds the first record of the given name in a catalog.
pub fn catalog_find<'a>(catalog: &'a Vec<CMakePackage>, name: &str) -> (r: Option<
    &'a CMakePackage,
>)
    ensures
        r is Some <==> catalog_has(catalog@, name@),
        r matches Some(p) ==> p.name@ == name@,
{
    let mut j: usize = 0;
    while j < catalog.len()
        invariant
            j <= catalog@.len(),
            forall|m: int| 0 <= m < j ==> (#[trigger] catalog@[m]).name@ != name@,
        decreases catalog@.len() - j,
    {
        if crate::strutil::str_eq(catalog[j].name.as_str(), name) {
            proof {
                assert(catalog@[j as int].name@ == name@);
            }
            return Some(&catalog[j]);
        }
        j += 1;
    }
    proof {
        if catalog_has(catalog@, name@) {
            let w = choose|w: int| 0 <= w < catalog@.len() && (#[trigger] catalog@[w]).name@
                == name@;
            assert(catalog@[w].name@ != name@);
        }
    }
    None
}

/// The view pairs of the subdirectory edges.
pub open spec fn subdirs_view(s: Seq<(String, String)>) -> Seq<(Seq<char>, Seq<char>)> {
    s.map_values(|p: (String, String)| (p.0@, p.1@))
}

/// The edges one script's subdirectory-inclusion arguments yield: one
/// edge per argument whose target script exists, in argument order.
pub open spec fn edges_of(
    parent: Seq<char>,
    args: Seq<Seq<char>>,
    fs: Map<Seq<char>, Seq<char>>,
) -> Seq<(Seq<char>, Seq<char>)>
    decreases args.len(),
{
    if args.len() == 0 {
        Seq::empty()
    } else {
        let rest = edges_of(parent, args.drop_last(), fs);
        let child = crate::jump::subdirectory_target(parent, args.last());
        if fs.contains_key(child) {
            rest.push((parent, child))
        } else {
            rest
        }
    }
}

/// Every edge points from the parent at an existing script.
pub proof fn lemma_edges_of_sound(
    parent: Seq<char>,
    args: Seq<Seq<char>>,
    fs: Map<Seq<char>, Seq<char>>,
)
    ensures
        forall|e: int|
            0 <= e < edges_of(parent, args, fs).len() ==> (#[trigger] edges_of(
                parent,
                args,
                fs,
            )[e]).0 == parent && fs.contains_key(edges_of(parent, args, fs)[e].1),
    decreases args.len(),
{
    if args.len() > 0 {
        lemma_edges_of_sound(parent, args.drop_last(), fs);
        let rest = edges_of(parent, args.drop_last(), fs);
        let cur = edges_of(parent, args, fs);
        assert forall|e: int| 0 <= e < cur.len() implies (#[trigger] cur[e]).0 == parent
            && fs.contains_key(cur[e].1) by {
            if e < rest.len() {
                assert(cur[e] == rest[e]);
            }
        }
    }
}

/// The subdirectory-inclusion arguments of a script's text.
pub open spec fn script_subdir_args(text: Seq<char>) -> Seq<Seq<char>> {
    let lines = crate::strutil::split_at_sep(text, '\n');
    cmd_args(lines, lines.len() as int, "add_subdirectory"@)
}

/// The package-reference arguments of a script's text.
pub open spec fn script_package_args(text: Seq<char>) -> Seq<Seq<char>> {
    let lines = crate::strutil::split_at_sep(text, '\n');
    cmd_args(lines, lines.len() as int, "find_package"@)
}

/// A merge keeps every indexed name, adds the merged name, and adds no
/// other.
proof fn lemma_merge_names(before: WorkspaceIndex, after: WorkspaceIndex, pkg: CMakePackage)
    requires
        !before.has_package(pkg.name@) ==> after.packages@ == before.packages@.push(pkg),
        before.has_package(pkg.name@) ==> {
            exists|i: int|
                {
                    &&& 0 <= i < before.packages@.len()
                    &&& (#[trigger] before.packages@[i]).name@ == pkg.name@
                    &&& after.packages@.len() == before.packages@.len()
                    &&& (forall|k: int|
                        0 <= k < before.packages@.len() && k != i ==> after.packages@[k]
                            == before.packages@[k])
                    &&& record_is_merge_of(after.packages@[i], before.packages@[i], pkg)
                }
        },
    ensures
        forall|nm: Seq<char>| before.has_package(nm) ==> #[trigger] after.has_package(nm),
        after.has_package(pkg.name@),
        forall|p: int|
            0 <= p < after.packages@.len() ==> before.has_package(
                (#[trigger] after.packages@[p]).name@,
            ) || after.packages@[p].name@ == pkg.name@,
{
    if !before.has_package(pkg.name@) {
        assert(after.packages@[before.packages@.len() as int].name@ == pkg.name@);
        assert forall|nm: Seq<char>| before.has_package(nm) implies #[trigger] after.has_package(
            nm,
        ) by {
            let w = choose|w: int|
                0 <= w < before.packages@.len() && (#[trigger] before.packages@[w]).name@ == nm;
            assert(after.packages@[w].name@ == nm);
        }
        assert forall|p: int| 0 <= p < after.packages@.len() implies before.has_package(
            (#[trigger] after.packages@[p]).name@,
        ) || after.packages@[p].name@ == pkg.name@ by {
            if p < before.packages@.len() {
                assert(before.packages@[p].name@ == after.packages@[p].name@);
            }
        }
    } else {
        let i = choose|i: int|
            {
                &&& 0 <= i < before.packages@.len()
                &&& (#[trigger] before.packages@[i]).name@ == pkg.name@
                &&& after.packages@.len() == before.packages@.len()
                &&& (forall|k: int|
                    0 <= k < before.packages@.len() && k != i ==> after.packages@[k]
                        == before.packages@[k])
                &&& record_is_merge_of(after.packages@[i], before.packages@[i], pkg)
            };
        assert(after.packages@[i].name@ == pkg.name@);
        assert forall|nm: Seq<char>| before.has_package(nm) implies #[trigger] after.has_package(
            nm,
        ) by {
            let w = choose|w: int|
                0 <= w < before.packages@.len() && (#[trigger] before.packages@[w]).name@ == nm;
            assert(after.packages@[w].name@ == nm);
        }
        assert forall|p: int| 0 <= p < after.packages@.len() implies before.has_package(
            (#[trigger] after.packages@[p]).name@,
        ) || after.packages@[p].name@ == pkg.name@ by {
            if p != i {
                assert(before.packages@[p].name@ == after.packages@[p].name@);
            }
        }
    }
}

/// Whether a package-reference argument resolves against the catalogs
/// in use.
pub open spec fn resolvable(
    name: Seq<char>,
    installed: Seq<CMakePackage>,
    deps: Seq<CMakePackage>,
    include_deps: bool,
) -> bool {
    catalog_has(installed, name) || (include_deps && catalog_has(deps, name))
}

/// Reads one script of the snapshot: appends exactly one edge per
/// subdirectory-inclusion argument whose target script exists,
/// enqueues those targets, and merges a record for every
/// package-reference argument the catalogs resolve. Nothing already
/// indexed is lost, and no name outside the catalogs appears.
pub fn process_script(
    idx: &mut WorkspaceIndex,
    queue: &mut Vec<String>,
    fs: &crate::store::TextStore,
    path: &String,
    installed: &Vec<CMakePackage>,
    dependency_packages: &Vec<CMakePackage>,
    include_dependency_packages: bool,
)
    requires
        fs.wf(),
        old(idx).wf(),
        fs@.contains_key(path@),
    ensures
        final(idx).wf(),
        subdirs_view(final(idx).subdirs@) == subdirs_view(old(idx).subdirs@) + edges_of(
            path@,
            script_subdir_args(fs@[path@]),
            fs@,
        ),
        forall|a: int|
            0 <= a < script_package_args(fs@[path@]).len() && resolvable(
                #[trigger] script_package_args(fs@[path@])[a],
                installed@,
                dependency_packages@,
                include_dependency_packages,
            ) ==> final(idx).has_package(script_package_args(fs@[path@])[a]),
        forall|nm: Seq<char>| old(idx).has_package(nm) ==> #[trigger] final(idx).has_package(nm),
        forall|p: int|
            0 <= p < final(idx).packages@.len() ==> old(idx).has_package(
                (#[trigger] final(idx).packages@[p]).name@,
            ) || resolvable(
                final(idx).packages@[p].name@,
                installed@,
                dependency_packages@,
                include_dependency_packages,
            ),
{
    let text = match fs.get(path.as_str()) {
        Some(t) => t,
        None => {
            proof {
                assert(false);
            }
            return ;
        },
    };
    let lines = crate::strutil::split_string(text.as_str(), '\n');
    proof {
        assert(crate::utils::lines_view(lines@) =~= crate::strutil::split_at_sep(
            fs@[path@],
            '\n',
        ));
    }

    let subdirs = command_args(lines.as_slice(), "add_subdirectory");
    let ghost sargs = script_subdir_args(fs@[path@]);
    let ghost base_edges = subdirs_view(idx.subdirs@);
    let mut s: usize = 0;
    while s < subdirs.len()
        invariant
            s <= subdirs@.len(),
            fs.wf(),
            idx.packages == old(idx).packages,
            idx.wf(),
            base_edges == subdirs_view(old(idx).subdirs@),
            subdirs@.map_values(|t: String| t@) == sargs,
            subdirs_view(idx.subdirs@) == base_edges + edges_of(
                path@,
                sargs.subrange(0, s as int),
                fs@,
            ),
        decreases subdirs@.len() - s,
    {
        proof {
            assert(sargs.subrange(0, s + 1).drop_last() =~= sargs.subrange(0, s as int));
            assert(subdirs@.map_values(|t: String| t@)[s as int] == subdirs@[s as int]@);
            assert(sargs.subrange(0, s + 1).last() == subdirs@[s as int]@);
        }
        let child = crate::jump::subdirectory_script_path(path.as_str(), subdirs[s].as_str());
        match fs.get(child.as_str()) {
            Some(_) => {
                let ghost eprev = idx.subdirs@;
                idx.subdirs.push((path.clone(), child.clone()));
                queue.push(child);
                proof {
                    eprev.lemma_push_map_commute(
                        |p: (String, String)| (p.0@, p.1@),
                        idx.subdirs@.last(),
                    );
                    assert(subdirs_view(idx.subdirs@) =~~= base_edges + edges_of(
                        path@,
                        sargs.subrange(0, s + 1),
                        fs@,
                    ));
                }
            },
            None => {
                proof {
                    assert(subdirs_view(idx.subdirs@) =~~= base_edges + edges_of(
                        path@,
                        sargs.subrange(0, s + 1),
                        fs@,
                    ));
                }
            },
        }
        s += 1;
    }
    proof {
        assert(sargs.subrange(0, sargs.len() as int) =~= sargs);
    }

    let packages = command_args(lines.as_slice(), "find_package");
    let ghost pargs = script_package_args(fs@[path@]);
    let ghost edges_done = idx.subdirs;
    let mut q: usize = 0;
    while q < packages.len()
        invariant
            q <= packages@.len(),
            fs.wf(),
            idx.wf(),
            idx.subdirs == edges_done,
            subdirs_view(idx.subdirs@) == subdirs_view(old(idx).subdirs@) + edges_of(
                path@,
                script_subdir_args(fs@[path@]),
                fs@,
            ),
            packages@.map_values(|t: String| t@) == pargs,
            forall|a: int|
                0 <= a < q && resolvable(
                    #[trigger] pargs[a],
                    installed@,
                    dependency_packages@,
                    include_dependency_packages,
                ) ==> idx.has_package(pargs[a]),
            forall|nm: Seq<char>| old(idx).has_package(nm) ==> #[trigger] idx.has_package(nm),
            forall|p: int|
                0 <= p < idx.packages@.len() ==> old(idx).has_package(
                    (#[trigger] idx.packages@[p]).name@,
                ) || resolvable(
                    idx.packages@[p].name@,
                    installed@,
                    dependency_packages@,
                    include_dependency_packages,
                ),
        decreases packages@.len() - q,
    {
        let name = &packages[q];
        proof {
            assert(packages@.map_values(|t: String| t@)[q as int] == name@);
        }
        let ghost before = *idx;
        let resolved = match catalog_find(installed, name.as_str()) {
            Some(record) => Some(clone_package(record)),
            None => {
                if include_dependency_packages {
                    match catalog_find(dependency_packages, name.as_str()) {
                        Some(record) => Some(clone_package(record)),
                        None => None,
                    }
                } else {
                    None
                }
            },
        };
        match resolved {
            Some(pkg) => {
                let ghost gpkg = pkg;
                proof {
                    assert(gpkg.name@ == name@);
                    assert(resolvable(
                        gpkg.name@,
                        installed@,
                        dependency_packages@,
                        include_dependency_packages,
                    ));
                }
                idx.merge_package(pkg);
                proof {
                    lemma_merge_names(before, *idx, gpkg);
                }
            },
            None => {},
        }
        q += 1;
    }
    proof {
        assert(pargs.subrange(0, pargs.len() as int) =~= pargs);
    }
}

/// Walks the workspace from the root's top-level script: follows each
/// subdirectory-inclusion edge whose child script exists, each script
/// visited once, and resolves each package-reference argument against
/// the installed catalog — and, when asked, against the packages
/// bundled with resolved dependencies. The walk skips what it cannot
/// read and still returns one whole index; the root script's own
/// edges and resolvable packages always stand in it.
pub fn scan_workspace(
    fs: &crate::store::TextStore,
    root: &str,
    installed: &Vec<CMakePackage>,
    dependency_packages: &Vec<CMakePackage>,
    include_dependency_packages: bool,
) -> (r: WorkspaceIndex)
    requires
        fs.wf(),
    ensures
        r.wf(),
        forall|e: int|
            0 <= e < r.subdirs@.len() ==> fs@.contains_key((#[trigger] r.subdirs@[e]).1@),
        forall|p: int|
            0 <= p < r.packages@.len() ==> resolvable(
                (#[trigger] r.packages@[p]).name@,
                installed@,
                dependency_packages@,
                include_dependency_packages,
            ),
        fs@.contains_key(root@) ==> {
            let root_edges = edges_of(root@, script_subdir_args(fs@[root@]), fs@);
            &&& subdirs_view(r.subdirs@).len() >= root_edges.len()
            &&& subdirs_view(r.subdirs@).subrange(0, root_edges.len() as int) == root_edges
            &&& forall|a: int|
                0 <= a < script_package_args(fs@[root@]).len() && resolvable(
                    #[trigger] script_package_args(fs@[root@])[a],
                    installed@,
                    dependency_packages@,
                    include_dependency_packages,
                ) ==> r.has_package(script_package_args(fs@[root@])[a])
        },
{
    let mut idx = WorkspaceIndex::empty();
    let mut remaining: Vec<String> = Vec::new();
    let mut i: usize = 0;
    while i < fs.len()
        invariant
            i <= fs.entries_seq().len(),
            fs.wf(),
            remaining@.len() == i,
            forall|m: int| 0 <= m < i ==> (#[trigger] remaining@[m])@ == fs.entries_seq()[m].0@,
        decreases fs.entries_seq().len() - i,
    {
        let (key, _text) = fs.entry_at(i);
        remaining.push(key.clone());
        i += 1;
    }
    proof {
        assert forall|m: int| 0 <= m < remaining@.len() implies fs@.contains_key(
            (#[trigger] remaining@[m])@,
        ) by {
            fs.lemma_entry_in_view(m);
        }
    }

    let mut queue: Vec<String> = Vec::new();
    let root_string = String::from_str(root);
    let ghost root_present = fs@.contains_key(root@);
    let ghost root_edges = edges_of(root@, script_subdir_args(fs@[root@]), fs@);
    let ghost root_pargs = script_package_args(fs@[root@]);

    // the root's own script first, so that its edges and resolvable
    // packages stand in the index whatever the rest of the walk finds
    match position_of(&remaining, root) {
        Some(at) => {
            let _removed = remaining.remove(at);
            process_script(
                &mut idx,
                &mut queue,
                fs,
                &root_string,
                installed,
                dependency_packages,
                include_dependency_packages,
            );
            proof {
                assert(subdirs_view(idx.subdirs@) =~= root_edges);
                lemma_edges_of_sound(root@, script_subdir_args(fs@[root@]), fs@);
                assert forall|e: int| 0 <= e < idx.subdirs@.len() implies fs@.contains_key(
                    (#[trigger] idx.subdirs@[e]).1@,
                ) by {
                    assert(subdirs_view(idx.subdirs@)[e] == (
                        idx.subdirs@[e].0@,
                        idx.subdirs@[e].1@,
                    ));
                    assert(subdirs_view(idx.subdirs@)[e] == root_edges[e]);
                }
            }
        },
        None => {
            proof {
                if root_present {
                    crate::store::lemma_assoc_map_contains(
                        crate::store::entry_views(fs.entries_seq()),
                        root@,
                    );
                    let w = choose|w: int|
                        0 <= w < crate::store::entry_views(fs.entries_seq()).len() && (
                        #[trigger] crate::store::entry_views(fs.entries_seq())[w]).0 == root@;
                    assert(crate::store::entry_views(fs.entries_seq())[w].0
                        == fs.entries_seq()[w].0@);
                    assert(remaining@[w]@ == root@);
                }
            }
        },
    }

    while queue.len() > 0
        invariant
            fs.wf(),
            idx.wf(),
            root_present == fs@.contains_key(root@),
            root_edges == edges_of(root@, script_subdir_args(fs@[root@]), fs@),
            root_pargs == script_package_args(fs@[root@]),
            forall|m: int|
                0 <= m < remaining@.len() ==> fs@.contains_key((#[trigger] remaining@[m])@),
            forall|e: int|
                0 <= e < idx.subdirs@.len() ==> fs@.contains_key((#[trigger] idx.subdirs@[e]).1@),
            forall|p: int|
                0 <= p < idx.packages@.len() ==> resolvable(
                    (#[trigger] idx.packages@[p]).name@,
                    installed@,
                    dependency_packages@,
                    include_dependency_packages,
                ),
            root_present ==> subdirs_view(idx.subdirs@).len() >= root_edges.len()
                && subdirs_view(idx.subdirs@).subrange(0, root_edges.len() as int) == root_edges,
            root_present ==> forall|a: int|
                0 <= a < root_pargs.len() && resolvable(
                    #[trigger] root_pargs[a],
                    installed@,
                    dependency_packages@,
                    include_dependency_packages,
                ) ==> idx.has_package(root_pargs[a]),
        decreases remaining@.len(), queue@.len(),
    {
        let path = match queue.pop() {
            Some(p) => p,
            None => {
                break ;
            },
        };
        let at = match position_of(&remaining, path.as_str()) {
            Some(at) => at,
            None => {
                continue ;
            },
        };
        let _removed = remaining.remove(at);
        let ghost before = idx;
        process_script(
            &mut idx,
            &mut queue,
            fs,
            &path,
            installed,
            dependency_packages,
            include_dependency_packages,
        );
        proof {
            lemma_edges_of_sound(path@, script_subdir_args(fs@[path@]), fs@);
            let new_edges = edges_of(path@, script_subdir_args(fs@[path@]), fs@);
            let prev_view = subdirs_view(before.subdirs@);
            assert(subdirs_view(idx.subdirs@) == prev_view + new_edges);
            assert(prev_view.len() == before.subdirs@.len());
            assert forall|e: int| 0 <= e < idx.subdirs@.len() implies fs@.contains_key(
                (#[trigger] idx.subdirs@[e]).1@,
            ) by {
                assert(subdirs_view(idx.subdirs@)[e] == (idx.subdirs@[e].0@, idx.subdirs@[e].1@));
                if e < before.subdirs@.len() {
                    assert(subdirs_view(idx.subdirs@)[e] == prev_view[e]);
                    assert(prev_view[e] == (before.subdirs@[e].0@, before.subdirs@[e].1@));
                    assert(idx.subdirs@[e].1@ == before.subdirs@[e].1@);
                } else {
                    assert(subdirs_view(idx.subdirs@)[e] == new_edges[e - prev_view.len()]);
                }
            }
            if root_present {
                assert(subdirs_view(idx.subdirs@).subrange(0, root_edges.len() as int)
                    =~= prev_view.subrange(0, root_edges.len() as int));
            }
        }
    }
    idx
}

/// The position of the first element holding exactly `w`, if any.
fn position_of(v: &Vec<String>, w: &str) -> (r: Option<usize>)
    ensures
        r matches Some(i) ==> i < v@.len() && v@[i as int]@ == w@,
        r is None ==> forall|m: int| 0 <= m < v@.len() ==> (#[trigger] v@[m])@ != w@,
{
    let mut j: usize = 0;
    while j < v.len()
        invariant
            j <= v@.len(),
            forall|m: int| 0 <= m < j ==> (#[trigger] v@[m])@ != w@,
        decreases v@.len() - j,
    {
        if crate::strutil::str_eq(v[j].as_str(), w) {
            return Some(j);
        }
        j += 1;
    }
    None
}

} // verus!

