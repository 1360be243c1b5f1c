//! The three findings of an analysis: unused packages, unused exports and
//! unused files.

use vstd::prelude::*;
use crate::graph::{DependencyGraph, FileImportGraph, FileNode, Symbol, SymbolUsageGraph, text_seq};

verus! {

/// A declared package that no file imports.
pub struct UnusedDependency {
    pub name: String,
    pub version: String,
}

/// An export of a reachable file that no reference names. `line` and
/// `column` carry the start and end offsets of the declaration.
pub struct UnusedExport {
    pub name: String,
    pub file: String,
    pub line: usize,
    pub column: usize,
}

/// A file that no entry point reaches.
pub struct UnusedFile {
    pub path: String,
}

/// The findings of one analysis.
pub struct AnalysisReport {
    pub unused_dependencies: Vec<UnusedDependency>,
    pub unused_exports: Vec<UnusedExport>,
    pub unused_files: Vec<UnusedFile>,
}

/// The finding reported for an unused export.
pub open spec fn export_finding(s: Symbol) -> UnusedExport {
    UnusedExport { name: s.name, file: s.file, line: s.span.0, column: s.span.1 }
}

/// `x` reports an export recorded for a reachable file whose name no
/// reference carries.
pub open spec fn is_export_finding(sg: &SymbolUsageGraph, fg: &FileImportGraph, x: UnusedExport) -> bool {
    exists|i: int|
        0 <= i < sg.exports.len() && fg.reachable(sg.exports@[i].0@) && !sg.is_referenced(
            sg.exports@[i].1.name@,
        ) && x == export_finding(#[trigger] sg.exports@[i].1)
}

/// A file is reported unused when it is neither reachable nor an entry point.
pub open spec fn file_is_unused(fg: &FileImportGraph, f: FileNode) -> bool {
    !fg.reachable(f.path@) && !f.is_entry_point
}

/// The unused files among the first `n` vertices, in order.
pub open spec fn unused_files_upto(fg: &FileImportGraph, n: int) -> Seq<UnusedFile>
    decreases n,
{
    if n <= 0 {
        Seq::empty()
    } else {
        let prev = unused_files_upto(fg, n - 1);
        let f = fg.files@[n - 1];
        if file_is_unused(fg, f) {
            prev.push(UnusedFile { path: f.path })
        } else {
            prev
        }
    }
}

/// The unused files, in the order of the vertices.
pub open spec fn unused_files_of(fg: &FileImportGraph) -> Seq<UnusedFile> {
    unused_files_upto(fg, fg.files@.len() as int)
}

/// The unused-package findings agree, one for one and in order, with the
/// records that no import has marked.
pub open spec fn deps_match(r: Seq<UnusedDependency>, dg: &DependencyGraph) -> bool {
    &&& r.len() == dg.unused().len()
    &&& forall|k: int|
        0 <= k < r.len() ==> #[trigger] r[k].name == dg.unused()[k].name && r[k].version
            == dg.unused()[k].version
}

/// What an analysis of the three graphs reports.
pub open spec fn report_matches(
    r: &AnalysisReport,
    dg: &DependencyGraph,
    fg: &FileImportGraph,
    sg: &SymbolUsageGraph,
) -> bool {
    &&& deps_match(r.unused_dependencies@, dg)
    &&& forall|x: UnusedExport| #[trigger] r.unused_exports@.contains(x) == is_export_finding(sg, fg, x)
    &&& r.unused_files@ == unused_files_of(fg)
}

/// Runs the three rules over the graphs.
pub struct RulesEngine;

impl RulesEngine {
    pub fn analyze(
        dependency_graph: &DependencyGraph,
        file_graph: &FileImportGraph,
        symbol_graph: &SymbolUsageGraph,
    ) -> (r: AnalysisReport)
        ensures
            report_matches(&r, dependency_graph, file_graph, symbol_graph),
    {
        AnalysisReport {
            unused_dependencies: Self::find_unused_dependencies(dependency_graph),
            unused_exports: Self::find_unused_exports(symbol_graph, file_graph),
            unused_files: Self::find_unused_files(file_graph),
        }
    }

    /// Declared packages that no file imports.
    fn find_unused_dependencies(dependency_graph: &DependencyGraph) -> (r: Vec<UnusedDependency>)
        ensures
            deps_match(r@, dependency_graph),
    {
        let deps = dependency_graph.unused_dependencies();
        let mut r: Vec<UnusedDependency> = Vec::new();
        let mut i: usize = 0;
        while i < deps.len()
            invariant
                i <= deps.len(),
                deps@.len() == dependency_graph.unused().len(),
                forall|k: int| 0 <= k < deps@.len() ==> #[trigger] deps@[k].agrees(&dependency_graph.unused()[k]),
                r@.len() == i,
                forall|k: int|
                    0 <= k < i ==> #[trigger] r@[k].name == dependency_graph.unused()[k].name && r@[k].version
                        == dependency_graph.unused()[k].version,
            decreases deps.len() - i,
        {
            assert(deps@[i as int].agrees(&dependency_graph.unused()[i as int]));
            r.push(UnusedDependency { name: deps[i].name.clone(), version: deps[i].version.clone() });
            i = i + 1;
        }
        r
    }

    /// Exports of reachable files that no reference names.
    fn find_unused_exports(symbol_graph: &SymbolUsageGraph, file_graph: &FileImportGraph) -> (r: Vec<
        UnusedExport,
    >)
        ensures
            forall|x: UnusedExport| #[trigger] r@.contains(x) == is_export_finding(symbol_graph, file_graph, x),
    {
        let reachable = file_graph.reachable_files();
        let mut unused: Vec<UnusedExport> = Vec::new();
        let mut k: usize = 0;
        while k < reachable.len()
            invariant
                k <= reachable.len(),
                forall|p: Seq<char>| #[trigger] text_seq(reachable@).contains(p) == file_graph.reachable(p),
                forall|x: UnusedExport| #[trigger] unused@.contains(x) <==> exists|j: int, s: Symbol|
                    0 <= j < k && #[trigger] symbol_graph.unused_in(reachable@[j]@).contains(s) && x
                        == #[trigger] export_finding(s),
            decreases reachable.len() - k,
        {
            let found = symbol_graph.unused_exports_in_file(&reachable[k]);
            let ghost before = unused@;
            let mut m: usize = 0;
            while m < found.len()
                invariant
                    k < reachable.len(),
                    m <= found.len(),
                    found@ == symbol_graph.unused_in(reachable@[k as int]@),
                    forall|x: UnusedExport| #[trigger] unused@.contains(x) <==> (before.contains(x) || exists|n: int|
                        0 <= n < m && x == #[trigger] export_finding(found@[n])),
                decreases found.len() - m,
            {
                let s = &found[m];
                let x = UnusedExport {
                    name: s.name.clone(),
                    file: s.file.clone(),
                    line: s.span.0,
                    column: s.span.1,
                };
                proof {
                    assert(x == export_finding(found@[m as int]));
                    assert forall|y: UnusedExport| #[trigger] unused@.push(x).contains(y) <==> (before.contains(y)
                        || exists|n: int| 0 <= n < m + 1 && y == #[trigger] export_finding(found@[n])) by {
                        crate::graph::lemma_push_contains_any(unused@, x, y);
                    }
                }
                unused.push(x);
                m = m + 1;
            }
            proof {
                assert forall|x: UnusedExport| #[trigger] unused@.contains(x) <==> exists|j: int, s: Symbol|
                    0 <= j < k + 1 && #[trigger] symbol_graph.unused_in(reachable@[j]@).contains(s) && x
                        == #[trigger] export_finding(s) by {
                    if unused@.contains(x) && !before.contains(x) {
                        let n = choose|n: int| 0 <= n < found.len() && x == #[trigger] export_finding(found@[n]);
                        assert(symbol_graph.unused_in(reachable@[k as int]@).contains(found@[n]));
                    }
                    if exists|j: int, s: Symbol|
                        0 <= j < k + 1 && #[trigger] symbol_graph.unused_in(reachable@[j]@).contains(s) && x
                            == #[trigger] export_finding(s) {
                        let (j, s) = choose|j: int, s: Symbol|
                            0 <= j < k + 1 && #[trigger] symbol_graph.unused_in(reachable@[j]@).contains(s) && x
                                == #[trigger] export_finding(s);
                        if j == k {
                            let n = choose|n: int| 0 <= n < found.len() && found@[n] == s;
                            assert(x == export_finding(found@[n]));
                        }
                    }
                }
            }
            k = k + 1;
        }
        proof {
            assert forall|x: UnusedExport| #[trigger] unused@.contains(x) == is_export_finding(
                symbol_graph,
                file_graph,
                x,
            ) by {
                if unused@.contains(x) {
                    let (j, s) = choose|j: int, s: Symbol|
                        0 <= j < reachable.len() && #[trigger] symbol_graph.unused_in(reachable@[j]@).contains(s)
                            && x == #[trigger] export_finding(s);
                    symbol_graph.lemma_unused_upto_members(reachable@[j]@, symbol_graph.exports@.len() as int);
                    let i = choose|i: int|
                        0 <= i < symbol_graph.exports@.len() && symbol_graph.exports@[i].0@ == reachable@[j]@
                            && #[trigger] symbol_graph.exports@[i].1 == s && !symbol_graph.is_referenced(s.name@);
                    assert(text_seq(reachable@)[j] == reachable@[j]@);
                    assert(text_seq(reachable@).contains(reachable@[j]@));
                }
                if is_export_finding(symbol_graph, file_graph, x) {
                    let i = choose|i: int|
                        0 <= i < symbol_graph.exports.len() && file_graph.reachable(symbol_graph.exports@[i].0@)
                            && !symbol_graph.is_referenced(symbol_graph.exports@[i].1.name@) && x == export_finding(
                            #[trigger] symbol_graph.exports@[i].1,
                        );
                    let f = symbol_graph.exports@[i].0@;
                    assert(text_seq(reachable@).contains(f));
                    let j = choose|j: int| 0 <= j < text_seq(reachable@).len() && text_seq(reachable@)[j] == f;
                    assert(reachable@[j]@ == f);
                    symbol_graph.lemma_unused_upto_members(f, symbol_graph.exports@.len() as int);
                    assert(symbol_graph.unused_in(reachable@[j]@).contains(symbol_graph.exports@[i].1));
                }
            }
        }
        unused
    }

    /// Files that are neither reachable nor entry points, in vertex order.
    fn find_unused_files(file_graph: &FileImportGraph) -> (r: Vec<UnusedFile>)
        ensures
            r@ == unused_files_of(file_graph),
    {
        let reachable = file_graph.reachable_files();
        let mut r: Vec<UnusedFile> = Vec::new();
        let mut i: usize = 0;
        while i < file_graph.files.len()
            invariant
                i <= file_graph.files.len(),
                forall|p: Seq<char>| #[trigger] text_seq(reachable@).contains(p) == file_graph.reachable(p),
                r@ == unused_files_upto(file_graph, i as int),
            decreases file_graph.files.len() - i,
        {
            let f = &file_graph.files[i];
            if !crate::graph::contains_text(&reachable, &f.path) && !f.is_entry_point {
                r.push(UnusedFile { path: f.path.clone() });
            }
            i = i + 1;
        }
        r
    }
}


/// Some finding of `s` carries the path `p`.
pub open spec fn lists_path(s: Seq<UnusedFile>, p: Seq<char>) -> bool {
    exists|k: int| 0 <= k < s.len() && #[trigger] s[k].path@ == p
}

/// A path is among the unused files exactly when some vertex with that path
/// is neither reachable nor flagged as an entry point.
pub proof fn lemma_unused_files_members(fg: &FileImportGraph, n: int)
    requires
        0 <= n <= fg.files@.len(),
    ensures
        forall|p: Seq<char>| #[trigger] lists_path(unused_files_upto(fg, n), p)
            <==> (exists|i: int| 0 <= i < n && #[trigger] fg.files@[i].path@ == p && file_is_unused(fg, fg.files@[i])),
    decreases n,
{
    if n > 0 {
        lemma_unused_files_members(fg, n - 1);
        let prev = unused_files_upto(fg, n - 1);
        let cur = unused_files_upto(fg, n);
        assert forall|p: Seq<char>| #[trigger] lists_path(cur, p)
            <==> (exists|i: int| 0 <= i < n && #[trigger] fg.files@[i].path@ == p && file_is_unused(fg, fg.files@[i])) by {
            if exists|k: int| 0 <= k < cur.len() && #[trigger] cur[k].path@ == p {
                let k = choose|k: int| 0 <= k < cur.len() && #[trigger] cur[k].path@ == p;
                if k < prev.len() {
                    assert(cur[k] == prev[k]);
                    assert(prev[k].path@ == p);
                    assert(lists_path(prev, p));
                } else {
                    assert(fg.files@[n - 1].path@ == p);
                }
            }
            if exists|i: int| 0 <= i < n && #[trigger] fg.files@[i].path@ == p && file_is_unused(fg, fg.files@[i]) {
                let i = choose|i: int| 0 <= i < n && #[trigger] fg.files@[i].path@ == p && file_is_unused(fg, fg.files@[i]);
                if i < n - 1 {
                    assert(fg.files@[i].path@ == p && file_is_unused(fg, fg.files@[i]));
                    assert(lists_path(prev, p));
                    let k = choose|k: int| 0 <= k < prev.len() && #[trigger] prev[k].path@ == p;
                    assert(cur[k] == prev[k]);
                    assert(cur[k].path@ == p);
                } else {
                    assert(cur == prev.push(UnusedFile { path: fg.files@[n - 1].path }));
                    assert(cur[prev.len() as int].path@ == p);
                }
            }
        }
    }
}

/// In a graph whose vertices have distinct paths, a path is reported as an
/// unused file exactly when it is a vertex, unreachable, and no entry point.
pub proof fn lemma_unused_files_complement(fg: &FileImportGraph)
    requires
        fg.wf(),
    ensures
        forall|p: Seq<char>| #[trigger] lists_path(unused_files_of(fg), p)
            <==> (fg.has_file(p) && !fg.reachable(p) && !fg.is_entry(p)),
{
    lemma_unused_files_members(fg, fg.files@.len() as int);
    assert forall|p: Seq<char>| #[trigger] lists_path(unused_files_of(fg), p)
        <==> (fg.has_file(p) && !fg.reachable(p) && !fg.is_entry(p)) by {
        if fg.has_file(p) && !fg.reachable(p) && !fg.is_entry(p) {
            let i = choose|i: int| 0 <= i < fg.files.len() && #[trigger] fg.files@[i].path@ == p;
            assert(file_is_unused(fg, fg.files@[i]));
        }
        if exists|i: int| 0 <= i < fg.files@.len() && #[trigger] fg.files@[i].path@ == p && file_is_unused(fg, fg.files@[i]) {
            let i = choose|i: int| 0 <= i < fg.files@.len() && #[trigger] fg.files@[i].path@ == p && file_is_unused(fg, fg.files@[i]);
            if fg.is_entry(p) {
                let j = choose|j: int| 0 <= j < fg.files.len() && #[trigger] fg.files@[j].path@ == p && fg.files@[j].is_entry_point;
                assert(i == j);
            }
        }
    }
}

/// An export whose name some reference carries, in any file, is never
/// reported.
pub proof fn lemma_referenced_export_not_reported(
    sg: &SymbolUsageGraph,
    fg: &FileImportGraph,
    x: UnusedExport,
)
    requires
        sg.is_referenced(x.name@),
    ensures
        !is_export_finding(sg, fg, x),
{
}

} // verus!
