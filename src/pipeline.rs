//! Aggregation of per-file facts into the three graphs, and the whole
//! analysis from discovered files to findings.

use vstd::prelude::*;
use crate::graph::{DependencyGraph, FileImportGraph, SymbolUsageGraph, Symbol, text_seq, contains_text};
use crate::parser::ParsedFile;
use crate::rules::{AnalysisReport, RulesEngine, UnusedExport, export_finding};
use crate::specifier::{extract_package_name, package_name_of};

verus! {

/// `p` is a discovered file listed among the entry points.
pub open spec fn input_entry(files: Seq<String>, entries: Seq<String>, p: Seq<char>) -> bool {
    text_seq(files).contains(p) && text_seq(entries).contains(p)
}

/// Some parsed file holds an import edge from `a` to `b`.
pub open spec fn input_edge(parsed: Seq<ParsedFile>, a: Seq<char>, b: Seq<char>) -> bool {
    exists|j: int, k: int|
        0 <= j < parsed.len() && 0 <= k < parsed[j].imports@.len() && #[trigger] parsed[j].imports@[k].from@ == a
            && parsed[j].imports@[k].to@ == b
}

/// Some parsed file exports `s` and has the path `f`.
pub open spec fn input_export(parsed: Seq<ParsedFile>, f: Seq<char>, s: Symbol) -> bool {
    exists|j: int, k: int|
        0 <= j < parsed.len() && 0 <= k < parsed[j].exports@.len() && parsed[j].path@ == f
            && #[trigger] parsed[j].exports@[k] == s
}

/// Some parsed file, wherever it stands, holds a reference named `n`.
pub open spec fn input_referenced(parsed: Seq<ParsedFile>, n: Seq<char>) -> bool {
    exists|j: int, k: int|
        0 <= j < parsed.len() && 0 <= k < parsed[j].references@.len()
            && #[trigger] parsed[j].references@[k].symbol@ == n
}

/// Some parsed file imports a specifier that names the package `n`.
pub open spec fn input_imports_package(parsed: Seq<ParsedFile>, n: Seq<char>) -> bool {
    exists|j: int, k: int|
        0 <= j < parsed.len() && 0 <= k < parsed[j].package_imports@.len() && package_name_of(
            #[trigger] parsed[j].package_imports@[k]@,
        ) == Some(n)
}

/// The record `d` carries a name and version that the manifest declares.
pub open spec fn from_manifest(deps: Seq<(String, String)>, d: crate::graph::PackageInfo) -> bool {
    exists|q: int| 0 <= q < deps.len() && #[trigger] deps[q].0 == d.name && deps[q].1 == d.version
}

/// The manifest declares the package `n`.
pub open spec fn input_declares(deps: Seq<(String, String)>, n: Seq<char>) -> bool {
    exists|m: int| 0 <= m < deps.len() && #[trigger] deps[m].0@ == n
}

impl SymbolUsageGraph {
    /// Some export record of the file `f` is `s`.
    pub open spec fn has_export(&self, f: Seq<char>, s: Symbol) -> bool {
        exists|i: int| 0 <= i < self.exports.len() && self.exports@[i].0@ == f && #[trigger] self.exports@[i].1 == s
    }
}

/// Adds the import edges of one parsed file.
fn add_imports(fg: &mut FileImportGraph, pf: &ParsedFile)
    ensures
        final(fg).files@ == old(fg).files@,
        forall|a: Seq<char>, b: Seq<char>| #[trigger] final(fg).has_edge(a, b) <==> (old(fg).has_edge(a, b) || exists|k: int|
            0 <= k < pf.imports@.len() && #[trigger] pf.imports@[k].from@ == a && pf.imports@[k].to@ == b),
{
    let ghost g0 = *fg;
    let mut k: usize = 0;
    while k < pf.imports.len()
        invariant
            k <= pf.imports.len(),
            fg.files@ == g0.files@,
            fg.imports@.len() == g0.imports@.len() + k,
            forall|i: int| 0 <= i < g0.imports@.len() ==> fg.imports@[i] == g0.imports@[i],
            forall|i: int|
                0 <= i < k ==> (#[trigger] fg.imports@[g0.imports@.len() + i]).from@ == pf.imports@[i].from@
                    && fg.imports@[g0.imports@.len() + i].to@ == pf.imports@[i].to@,
        decreases pf.imports.len() - k,
    {
        let e = &pf.imports[k];
        fg.add_import(crate::graph::ImportEdge {
            from: e.from.clone(),
            to: e.to.clone(),
            imported_symbols: crate::graph::copy_strings(&e.imported_symbols),
            is_type_only: e.is_type_only,
        });
        k = k + 1;
    }
    assert forall|a: Seq<char>, b: Seq<char>| #[trigger] fg.has_edge(a, b) <==> (g0.has_edge(a, b) || exists|k: int|
        0 <= k < pf.imports@.len() && #[trigger] pf.imports@[k].from@ == a && pf.imports@[k].to@ == b) by {
        if fg.has_edge(a, b) {
            let i = choose|i: int|
                0 <= i < fg.imports.len() && #[trigger] fg.imports@[i].from@ == a && fg.imports@[i].to@ == b;
            if i < g0.imports@.len() {
                assert(g0.imports@[i] == fg.imports@[i]);
                assert(g0.imports@[i].from@ == a && g0.imports@[i].to@ == b);
            }
            if i >= g0.imports@.len() {
                let k = i - g0.imports@.len();
                assert(fg.imports@[g0.imports@.len() + k] == fg.imports@[i]);
                assert(pf.imports@[k].from@ == a && pf.imports@[k].to@ == b);
            }
        }
        if g0.has_edge(a, b) {
            let i = choose|i: int|
                0 <= i < g0.imports.len() && #[trigger] g0.imports@[i].from@ == a && g0.imports@[i].to@ == b;
            assert(fg.imports@[i] == g0.imports@[i]);
            assert(fg.imports@[i].from@ == a && fg.imports@[i].to@ == b);
        }
        if exists|k: int| 0 <= k < pf.imports@.len() && #[trigger] pf.imports@[k].from@ == a && pf.imports@[k].to@ == b {
            let k = choose|k: int| 0 <= k < pf.imports@.len() && #[trigger] pf.imports@[k].from@ == a && pf.imports@[k].to@ == b;
            assert(fg.imports@[g0.imports@.len() + k].from@ == a && fg.imports@[g0.imports@.len() + k].to@ == b);
        }
    }
}

/// Adds the export records and references of one parsed file.
fn add_symbols(sg: &mut SymbolUsageGraph, pf: &ParsedFile)
    ensures
        forall|f: Seq<char>, s: Symbol| #[trigger] final(sg).has_export(f, s) <==> (old(sg).has_export(f, s) || (f
            == pf.path@ && exists|k: int| 0 <= k < pf.exports@.len() && #[trigger] pf.exports@[k] == s)),
        forall|n: Seq<char>| #[trigger] final(sg).is_referenced(n) <==> (old(sg).is_referenced(n) || exists|k: int|
            0 <= k < pf.references@.len() && #[trigger] pf.references@[k].symbol@ == n),
{
    let ghost g0 = *sg;
    let mut k: usize = 0;
    while k < pf.exports.len()
        invariant
            k <= pf.exports.len(),
            sg.references@ == g0.references@,
            sg.exports@.len() == g0.exports@.len() + k,
            forall|i: int| 0 <= i < g0.exports@.len() ==> sg.exports@[i] == g0.exports@[i],
            forall|i: int|
                0 <= i < k ==> (#[trigger] sg.exports@[g0.exports@.len() + i]).0@ == pf.path@
                    && sg.exports@[g0.exports@.len() + i].1 == pf.exports@[i],
        decreases pf.exports.len() - k,
    {
        sg.add_export(pf.path.clone(), pf.exports[k].copy());
        k = k + 1;
    }
    let ghost g1 = *sg;
    let mut m: usize = 0;
    while m < pf.references.len()
        invariant
            m <= pf.references.len(),
            sg.exports@ == g1.exports@,
            sg.references@.len() == g1.references@.len() + m,
            forall|i: int| 0 <= i < g1.references@.len() ==> sg.references@[i] == g1.references@[i],
            forall|i: int|
                0 <= i < m ==> (#[trigger] sg.references@[g1.references@.len() + i]).1.symbol@
                    == pf.references@[i].symbol@,
        decreases pf.references.len() - m,
    {
        let r = &pf.references[m];
        sg.add_reference(
            pf.path.clone(),
            crate::graph::SymbolReference { symbol: r.symbol.clone(), file: r.file.clone(), span: r.span },
        );
        m = m + 1;
    }
    assert forall|f: Seq<char>, s: Symbol| #[trigger] sg.has_export(f, s) <==> (g0.has_export(f, s) || (f == pf.path@
        && exists|k: int| 0 <= k < pf.exports@.len() && #[trigger] pf.exports@[k] == s)) by {
        if sg.has_export(f, s) {
            let i = choose|i: int| 0 <= i < sg.exports.len() && sg.exports@[i].0@ == f && #[trigger] sg.exports@[i].1 == s;
            if i < g0.exports@.len() {
                assert(g0.exports@[i] == sg.exports@[i]);
                assert(g0.exports@[i].0@ == f && g0.exports@[i].1 == s);
            }
            if i >= g0.exports@.len() {
                let k = i - g0.exports@.len();
                assert(sg.exports@[g0.exports@.len() + k] == sg.exports@[i]);
                assert(pf.exports@[k] == s);
            }
        }
        if g0.has_export(f, s) {
            let i = choose|i: int| 0 <= i < g0.exports.len() && g0.exports@[i].0@ == f && #[trigger] g0.exports@[i].1 == s;
            assert(sg.exports@[i] == g0.exports@[i]);
            assert(sg.exports@[i].0@ == f && sg.exports@[i].1 == s);
        }
        if f == pf.path@ && exists|k: int| 0 <= k < pf.exports@.len() && #[trigger] pf.exports@[k] == s {
            let k = choose|k: int| 0 <= k < pf.exports@.len() && #[trigger] pf.exports@[k] == s;
            assert(sg.exports@[g0.exports@.len() + k].1 == s && sg.exports@[g0.exports@.len() + k].0@ == f);
        }
    }
    assert forall|n: Seq<char>| #[trigger] sg.is_referenced(n) <==> (g0.is_referenced(n) || exists|k: int|
        0 <= k < pf.references@.len() && #[trigger] pf.references@[k].symbol@ == n) by {
        if sg.is_referenced(n) {
            let i = choose|i: int| 0 <= i < sg.references.len() && #[trigger] sg.references@[i].1.symbol@ == n;
            if i < g1.references@.len() {
                assert(g1.references@[i] == g0.references@[i]);
                assert(g0.references@[i].1.symbol@ == n);
            }
            if i >= g1.references@.len() {
                let k = i - g1.references@.len();
                assert(sg.references@[g1.references@.len() + k] == sg.references@[i]);
                assert(pf.references@[k].symbol@ == n);
            }
        }
        if g0.is_referenced(n) {
            let i = choose|i: int| 0 <= i < g0.references.len() && #[trigger] g0.references@[i].1.symbol@ == n;
            assert(sg.references@[i] == g0.references@[i]);
            assert(sg.references@[i].1.symbol@ == n);
        }
        if exists|k: int| 0 <= k < pf.references@.len() && #[trigger] pf.references@[k].symbol@ == n {
            let k = choose|k: int| 0 <= k < pf.references@.len() && #[trigger] pf.references@[k].symbol@ == n;
            assert(sg.references@[g1.references@.len() + k].1.symbol@ == n);
        }
    }
}

/// Records, against the declared packages, each package specifier of one
/// parsed file.
fn record_packages(dg: &mut DependencyGraph, pf: &ParsedFile)
    requires
        old(dg).wf(),
    ensures
        final(dg).wf(),
        final(dg).dependencies@.len() == old(dg).dependencies@.len(),
        forall|i: int| 0 <= i < old(dg).dependencies@.len() ==> {
            let (a, b) = (old(dg).dependencies@[i], #[trigger] final(dg).dependencies@[i]);
            &&& b.name == a.name
            &&& b.version == a.version
            &&& b.is_used == (a.is_used || exists|k: int|
                0 <= k < pf.package_imports@.len() && package_name_of(#[trigger] pf.package_imports@[k]@) == Some(
                    a.name@,
                ))
        },
{
    let ghost g0 = *dg;
    let mut k: usize = 0;
    while k < pf.package_imports.len()
        invariant
            k <= pf.package_imports.len(),
            dg.wf(),
            dg.dependencies@.len() == g0.dependencies@.len(),
            forall|i: int| 0 <= i < g0.dependencies@.len() ==> {
                let (a, b) = (g0.dependencies@[i], #[trigger] dg.dependencies@[i]);
                &&& b.name == a.name
                &&& b.version == a.version
                &&& b.is_used == (a.is_used || exists|q: int|
                    0 <= q < k && package_name_of(#[trigger] pf.package_imports@[q]@) == Some(a.name@))
            },
        decreases pf.package_imports.len() - k,
    {
        let ghost before = *dg;
        match extract_package_name(pf.package_imports[k].as_str()) {
            Some(name) => dg.record_import(name.as_str(), pf.path.clone()),
            None => {},
        }
        assert forall|i: int| 0 <= i < g0.dependencies@.len() implies {
            let (a, b) = (g0.dependencies@[i], #[trigger] dg.dependencies@[i]);
            &&& b.name == a.name
            &&& b.version == a.version
            &&& b.is_used == (a.is_used || exists|q: int|
                0 <= q < k + 1 && package_name_of(#[trigger] pf.package_imports@[q]@) == Some(a.name@))
        } by {
            let a = g0.dependencies@[i];
            assert(before.dependencies@[i].name == a.name);
            if package_name_of(pf.package_imports@[k as int]@) == Some(a.name@) {
                assert(dg.dependencies@[i].is_used);
            }
            if exists|q: int| 0 <= q < k + 1 && package_name_of(#[trigger] pf.package_imports@[q]@) == Some(a.name@) {
                let q = choose|q: int| 0 <= q < k + 1 && package_name_of(#[trigger] pf.package_imports@[q]@) == Some(a.name@);
                if q < k {
                    assert(before.dependencies@[i].is_used);
                }
            }
        }
        k = k + 1;
    }
}


/// `w` starts at an entry point and follows the import edges of the parsed
/// files.
pub open spec fn input_walk(
    files: Seq<String>,
    entries: Seq<String>,
    parsed: Seq<ParsedFile>,
    w: Seq<Seq<char>>,
) -> bool {
    &&& w.len() > 0
    &&& input_entry(files, entries, w[0])
    &&& forall|i: int| 0 <= i < w.len() - 1 ==> input_edge(parsed, #[trigger] w[i], w[i + 1])
}

/// `p` is reached from an entry point by the import edges of the parsed files.
pub open spec fn input_reachable(
    files: Seq<String>,
    entries: Seq<String>,
    parsed: Seq<ParsedFile>,
    p: Seq<char>,
) -> bool {
    exists|w: Seq<Seq<char>>| #[trigger] input_walk(files, entries, parsed, w) && w.last() == p
}

/// The three graphs hold exactly the facts of the inputs.
pub open spec fn graphs_match(
    g: (FileImportGraph, SymbolUsageGraph, DependencyGraph),
    files: Seq<String>,
    entries: Seq<String>,
    parsed: Seq<ParsedFile>,
    deps: Seq<(String, String)>,
) -> bool {
    &&& g.0.wf()
    &&& g.2.wf()
    &&& forall|p: Seq<char>| #[trigger] g.0.has_file(p) <==> text_seq(files).contains(p)
    &&& forall|p: Seq<char>| #[trigger] g.0.is_entry(p) <==> input_entry(files, entries, p)
    &&& forall|a: Seq<char>, b: Seq<char>| #[trigger] g.0.has_edge(a, b) <==> input_edge(parsed, a, b)
    &&& forall|f: Seq<char>, s: Symbol| #[trigger] g.1.has_export(f, s) <==> input_export(parsed, f, s)
    &&& forall|n: Seq<char>| #[trigger] g.1.is_referenced(n) <==> input_referenced(parsed, n)
    &&& forall|n: Seq<char>| #[trigger] g.2.declares(n) <==> input_declares(deps, n)
    &&& forall|i: int|
        0 <= i < g.2.dependencies@.len() ==> (#[trigger] g.2.dependencies@[i]).is_used
            == input_imports_package(parsed, g.2.dependencies@[i].name@)
    &&& forall|i: int|
        0 <= i < g.2.dependencies@.len() ==> from_manifest(deps, #[trigger] g.2.dependencies@[i])
}

pub proof fn lemma_take_push_text(v: Seq<String>, i: int)
    requires
        0 <= i < v.len(),
    ensures
        forall|p: Seq<char>| #[trigger] text_seq(v.take(i + 1)).contains(p) <==> (text_seq(v.take(i)).contains(p)
            || p == v[i]@),
{
    assert(v.take(i + 1) =~= v.take(i).push(v[i]));
    crate::graph::lemma_text_push(v.take(i), v[i]);
    crate::graph::lemma_push_contains(text_seq(v.take(i)), v[i]@);
}

/// Builds the three graphs: one vertex per discovered file, flagged as an
/// entry point when listed among `entry_points`; the declared packages; and
/// the facts of every parsed file.
pub fn build_graphs(
    files: &Vec<String>,
    entry_points: &Vec<String>,
    parsed_files: &Vec<ParsedFile>,
    dependencies: &Vec<(String, String)>,
) -> (r: (FileImportGraph, SymbolUsageGraph, DependencyGraph))
    ensures
        graphs_match(r, files@, entry_points@, parsed_files@, dependencies@),
{
    let mut fg = FileImportGraph::new();
    let mut sg = SymbolUsageGraph::new();
    let mut dg = DependencyGraph::new();
    let mut i: usize = 0;
    proof {
        assert(files@.take(0) =~= Seq::<String>::empty());
        assert(text_seq(files@.take(0)) =~= Seq::<Seq<char>>::empty());
    }
    while i < files.len()
        invariant
            i <= files.len(),
            fg.wf(),
            fg.imports@.len() == 0,
            forall|p: Seq<char>| #[trigger] fg.has_file(p) <==> text_seq(files@.take(i as int)).contains(p),
            forall|p: Seq<char>| #[trigger] fg.is_entry(p) <==> (text_seq(files@.take(i as int)).contains(p)
                && text_seq(entry_points@).contains(p)),
        decreases files.len() - i,
    {
        let is_entry = contains_text(entry_points, &files[i]);
        fg.add_file(files[i].clone(), is_entry);
        proof {
            lemma_take_push_text(files@, i as int);
        }
        i = i + 1;
    }
    proof {
        assert(files@.take(files@.len() as int) =~= files@);
    }
    let mut m: usize = 0;
    while m < dependencies.len()
        invariant
            m <= dependencies.len(),
            dg.wf(),
            forall|n: Seq<char>| #[trigger] dg.declares(n) <==> exists|q: int| 0 <= q < m && #[trigger] dependencies@[q].0@ == n,
            forall|k: int| 0 <= k < dg.dependencies@.len() ==> !(#[trigger] dg.dependencies@[k]).is_used,
            forall|k: int|
                0 <= k < dg.dependencies@.len() ==> from_manifest(dependencies@, #[trigger] dg.dependencies@[k]),
        decreases dependencies.len() - m,
    {
        let ghost before = dg;
        let (name, version) = (&dependencies[m].0, &dependencies[m].1);
        dg.add_dependency(name.clone(), version.clone());
        proof {
            assert forall|n: Seq<char>| #[trigger] dg.declares(n) <==> exists|q: int|
                0 <= q < m + 1 && #[trigger] dependencies@[q].0@ == n by {
                if dg.declares(n) {
                    let k = choose|k: int| 0 <= k < dg.dependencies.len() && #[trigger] dg.dependencies@[k].name@ == n;
                    if k < before.dependencies@.len() {
                        assert(before.dependencies@[k] == dg.dependencies@[k]);
                        assert(before.declares(n));
                    } else {
                        assert(dependencies@[m as int].0@ == n);
                    }
                }
                if exists|q: int| 0 <= q < m + 1 && #[trigger] dependencies@[q].0@ == n {
                    let q = choose|q: int| 0 <= q < m + 1 && #[trigger] dependencies@[q].0@ == n;
                    if q == m {
                        if !before.declares(n) {
                            assert(dg.dependencies@[before.dependencies@.len() as int].name@ == n);
                        }
                    } else {
                        assert(before.declares(n));
                        let k = choose|k: int|
                            0 <= k < before.dependencies.len() && #[trigger] before.dependencies@[k].name@ == n;
                        assert(dg.dependencies@[k] == before.dependencies@[k]);
                    }
                }
            }
            assert forall|k: int|
                0 <= k < dg.dependencies@.len() implies from_manifest(dependencies@, #[trigger] dg.dependencies@[k]) by {
                if k < before.dependencies@.len() {
                    assert(before.dependencies@[k] == dg.dependencies@[k]);
                } else {
                    assert(dependencies@[m as int].0 == dg.dependencies@[k].name);
                }
            }
            assert forall|k: int| 0 <= k < dg.dependencies@.len() implies !(#[trigger] dg.dependencies@[k]).is_used by {
                if k < before.dependencies@.len() {
                    assert(before.dependencies@[k] == dg.dependencies@[k]);
                }
            }
        }
        m = m + 1;
    }
    let ghost seeded = dg;
    assert forall|n: Seq<char>| #[trigger] seeded.declares(n) <==> input_declares(dependencies@, n) by {
        if seeded.declares(n) {
            let q = choose|q: int| 0 <= q < m && #[trigger] dependencies@[q].0@ == n;
            assert(dependencies@[q].0@ == n);
        }
        if input_declares(dependencies@, n) {
            let q = choose|q: int| 0 <= q < dependencies@.len() && #[trigger] dependencies@[q].0@ == n;
            assert(dependencies@[q].0@ == n);
        }
    }
    let mut j: usize = 0;
    while j < parsed_files.len()
        invariant
            j <= parsed_files.len(),
            fg.wf(),
            dg.wf(),
            forall|p: Seq<char>| #[trigger] fg.has_file(p) <==> text_seq(files@).contains(p),
            forall|p: Seq<char>| #[trigger] fg.is_entry(p) <==> input_entry(files@, entry_points@, p),
            forall|a: Seq<char>, b: Seq<char>| #[trigger] fg.has_edge(a, b) <==> input_edge(
                parsed_files@.take(j as int),
                a,
                b,
            ),
            forall|f: Seq<char>, s: Symbol| #[trigger] sg.has_export(f, s) <==> input_export(
                parsed_files@.take(j as int),
                f,
                s,
            ),
            forall|n: Seq<char>| #[trigger] sg.is_referenced(n) <==> input_referenced(parsed_files@.take(j as int), n),
            dg.dependencies@.len() == seeded.dependencies@.len(),
            forall|n: Seq<char>| #[trigger] seeded.declares(n) <==> input_declares(dependencies@, n),
            forall|k: int| 0 <= k < seeded.dependencies@.len() ==> !(#[trigger] seeded.dependencies@[k]).is_used,
            forall|k: int|
                0 <= k < seeded.dependencies@.len() ==> from_manifest(dependencies@, #[trigger] seeded.dependencies@[k]),
            forall|k: int|
                0 <= k < seeded.dependencies@.len() ==> {
                    let (a, b) = (seeded.dependencies@[k], #[trigger] dg.dependencies@[k]);
                    &&& b.name == a.name
                    &&& b.version == a.version
                    &&& b.is_used == input_imports_package(parsed_files@.take(j as int), a.name@)
                },
        decreases parsed_files.len() - j,
    {
        let pf = &parsed_files[j];
        let ghost (fg0, sg0, dg0) = (fg, sg, dg);
        add_imports(&mut fg, pf);
        add_symbols(&mut sg, pf);
        record_packages(&mut dg, pf);
        proof {
            let ps = parsed_files@;
            let pre = ps.take(j as int);
            let post = ps.take(j + 1);
            assert(post =~= pre.push(ps[j as int]));
            assert forall|p: Seq<char>| #[trigger] fg.has_file(p) == fg0.has_file(p) by {
                if fg.has_file(p) {
                    let i = choose|i: int| 0 <= i < fg.files.len() && #[trigger] fg.files@[i].path@ == p;
                    assert(fg0.files@[i].path@ == p);
                }
                if fg0.has_file(p) {
                    let i = choose|i: int| 0 <= i < fg0.files.len() && #[trigger] fg0.files@[i].path@ == p;
                    assert(fg.files@[i].path@ == p);
                }
            }
            assert forall|p: Seq<char>| #[trigger] fg.is_entry(p) == fg0.is_entry(p) by {
                if fg.is_entry(p) {
                    let i = choose|i: int| 0 <= i < fg.files.len() && #[trigger] fg.files@[i].path@ == p && fg.files@[i].is_entry_point;
                    assert(fg0.files@[i].path@ == p);
                }
                if fg0.is_entry(p) {
                    let i = choose|i: int| 0 <= i < fg0.files.len() && #[trigger] fg0.files@[i].path@ == p && fg0.files@[i].is_entry_point;
                    assert(fg.files@[i].path@ == p);
                }
            }
            assert forall|a: Seq<char>, b: Seq<char>| #[trigger] fg.has_edge(a, b) <==> input_edge(post, a, b) by {
                if input_edge(post, a, b) {
                    let (x, k) = choose|x: int, k: int|
                        0 <= x < post.len() && 0 <= k < post[x].imports@.len() && #[trigger] post[x].imports@[k].from@
                            == a && post[x].imports@[k].to@ == b;
                    if x < j {
                        assert(pre[x] == post[x]);
                        assert(input_edge(pre, a, b));
                    } else {
                        assert(pf.imports@[k].from@ == a);
                    }
                }
                if fg0.has_edge(a, b) {
                    let (x, k) = choose|x: int, k: int|
                        0 <= x < pre.len() && 0 <= k < pre[x].imports@.len() && #[trigger] pre[x].imports@[k].from@
                            == a && pre[x].imports@[k].to@ == b;
                    assert(post[x] == pre[x]);
                    assert(post[x].imports@[k].from@ == a);
                }
                if exists|k: int| 0 <= k < pf.imports@.len() && #[trigger] pf.imports@[k].from@ == a && pf.imports@[k].to@ == b {
                    let k = choose|k: int| 0 <= k < pf.imports@.len() && #[trigger] pf.imports@[k].from@ == a && pf.imports@[k].to@ == b;
                    assert(post[j as int] == *pf);
                    assert(post[j as int].imports@[k].from@ == a);
                }
            }
            assert forall|f: Seq<char>, s: Symbol| #[trigger] sg.has_export(f, s) <==> input_export(post, f, s) by {
                if input_export(post, f, s) {
                    let (x, k) = choose|x: int, k: int|
                        0 <= x < post.len() && 0 <= k < post[x].exports@.len() && post[x].path@ == f
                            && #[trigger] post[x].exports@[k] == s;
                    if x < j {
                        assert(pre[x] == post[x]);
                        assert(input_export(pre, f, s));
                    } else {
                        assert(pf.exports@[k] == s);
                    }
                }
                if sg0.has_export(f, s) {
                    let (x, k) = choose|x: int, k: int|
                        0 <= x < pre.len() && 0 <= k < pre[x].exports@.len() && pre[x].path@ == f
                            && #[trigger] pre[x].exports@[k] == s;
                    assert(post[x] == pre[x]);
                    assert(post[x].exports@[k] == s);
                }
                if f == pf.path@ && exists|k: int| 0 <= k < pf.exports@.len() && #[trigger] pf.exports@[k] == s {
                    let k = choose|k: int| 0 <= k < pf.exports@.len() && #[trigger] pf.exports@[k] == s;
                    assert(post[j as int] == *pf);
                    assert(post[j as int].exports@[k] == s);
                }
            }
            assert forall|n: Seq<char>| #[trigger] sg.is_referenced(n) <==> input_referenced(post, n) by {
                if input_referenced(post, n) {
                    let (x, k) = choose|x: int, k: int|
                        0 <= x < post.len() && 0 <= k < post[x].references@.len()
                            && #[trigger] post[x].references@[k].symbol@ == n;
                    if x < j {
                        assert(pre[x] == post[x]);
                        assert(input_referenced(pre, n));
                    } else {
                        assert(pf.references@[k].symbol@ == n);
                    }
                }
                if sg0.is_referenced(n) {
                    let (x, k) = choose|x: int, k: int|
                        0 <= x < pre.len() && 0 <= k < pre[x].references@.len()
                            && #[trigger] pre[x].references@[k].symbol@ == n;
                    assert(post[x] == pre[x]);
                    assert(post[x].references@[k].symbol@ == n);
                }
                if exists|k: int| 0 <= k < pf.references@.len() && #[trigger] pf.references@[k].symbol@ == n {
                    let k = choose|k: int| 0 <= k < pf.references@.len() && #[trigger] pf.references@[k].symbol@ == n;
                    assert(post[j as int] == *pf);
                    assert(post[j as int].references@[k].symbol@ == n);
                }
            }
            assert forall|k: int| 0 <= k < seeded.dependencies@.len() implies {
                let (a, b) = (seeded.dependencies@[k], #[trigger] dg.dependencies@[k]);
                &&& b.name == a.name
                &&& b.version == a.version
                &&& b.is_used == input_imports_package(post, a.name@)
            } by {
                let a = seeded.dependencies@[k];
                assert(dg0.dependencies@[k].name == a.name);
                if input_imports_package(post, a.name@) {
                    let (x, q) = choose|x: int, q: int|
                        0 <= x < post.len() && 0 <= q < post[x].package_imports@.len() && package_name_of(
                            #[trigger] post[x].package_imports@[q]@,
                        ) == Some(a.name@);
                    if x < j {
                        assert(pre[x] == post[x]);
                        assert(input_imports_package(pre, a.name@));
                    } else {
                        assert(package_name_of(pf.package_imports@[q]@) == Some(a.name@));
                    }
                }
                if input_imports_package(pre, a.name@) {
                    let (x, q) = choose|x: int, q: int|
                        0 <= x < pre.len() && 0 <= q < pre[x].package_imports@.len() && package_name_of(
                            #[trigger] pre[x].package_imports@[q]@,
                        ) == Some(a.name@);
                    assert(post[x] == pre[x]);
                    assert(package_name_of(post[x].package_imports@[q]@) == Some(a.name@));
                }
                if exists|q: int|
                    0 <= q < pf.package_imports@.len() && package_name_of(#[trigger] pf.package_imports@[q]@) == Some(
                        a.name@,
                    ) {
                    let q = choose|q: int|
                        0 <= q < pf.package_imports@.len() && package_name_of(#[trigger] pf.package_imports@[q]@)
                            == Some(a.name@);
                    assert(post[j as int] == *pf);
                    assert(package_name_of(post[j as int].package_imports@[q]@) == Some(a.name@));
                }
            }
        }
        j = j + 1;
    }
    proof {
        assert(parsed_files@.take(parsed_files@.len() as int) =~= parsed_files@);
        assert forall|n: Seq<char>| #[trigger] dg.declares(n) <==> input_declares(dependencies@, n) by {
            if dg.declares(n) {
                let k = choose|k: int| 0 <= k < dg.dependencies.len() && #[trigger] dg.dependencies@[k].name@ == n;
                assert(seeded.dependencies@[k].name@ == n);
            }
            if seeded.declares(n) {
                let k = choose|k: int| 0 <= k < seeded.dependencies.len() && #[trigger] seeded.dependencies@[k].name@ == n;
                assert(dg.dependencies@[k].name@ == n);
            }
        }
        assert forall|k: int|
            0 <= k < dg.dependencies@.len() implies from_manifest(dependencies@, #[trigger] dg.dependencies@[k]) by {
            assert(seeded.dependencies@[k].name == dg.dependencies@[k].name);
        }
    }
    (fg, sg, dg)
}


/// Some finding of `s` names the package `n`.
pub open spec fn lists_package(s: Seq<crate::rules::UnusedDependency>, n: Seq<char>) -> bool {
    exists|k: int| 0 <= k < s.len() && #[trigger] s[k].name@ == n
}

/// The manifest declares `name` with the version `version`.
pub open spec fn declared_pair(deps: Seq<(String, String)>, name: String, version: String) -> bool {
    exists|q: int| 0 <= q < deps.len() && #[trigger] deps[q].0 == name && deps[q].1 == version
}

/// `x` reports an export of a reachable parsed file whose name no reference
/// in any parsed file carries.
pub open spec fn input_export_finding(
    files: Seq<String>,
    entries: Seq<String>,
    parsed: Seq<ParsedFile>,
    x: UnusedExport,
) -> bool {
    exists|f: Seq<char>, s: Symbol|
        #[trigger] input_export(parsed, f, s) && input_reachable(files, entries, parsed, f) && !input_referenced(
            parsed,
            s.name@,
        ) && x == export_finding(s)
}

/// What the analysis of a project reports, in terms of its inputs.
pub open spec fn project_report_matches(
    r: &AnalysisReport,
    files: Seq<String>,
    entries: Seq<String>,
    parsed: Seq<ParsedFile>,
    deps: Seq<(String, String)>,
) -> bool {
    &&& forall|n: Seq<char>| #[trigger] lists_package(r.unused_dependencies@, n) <==> (input_declares(deps, n)
        && !input_imports_package(parsed, n))
    &&& forall|k: int|
        0 <= k < r.unused_dependencies@.len() ==> declared_pair(
            deps,
            (#[trigger] r.unused_dependencies@[k]).name,
            r.unused_dependencies@[k].version,
        )
    &&& forall|p: Seq<char>| #[trigger] crate::rules::lists_path(r.unused_files@, p) <==> (text_seq(files).contains(p)
        && !input_reachable(files, entries, parsed, p) && !input_entry(files, entries, p))
    &&& forall|x: UnusedExport| #[trigger] r.unused_exports@.contains(x) <==> input_export_finding(
        files,
        entries,
        parsed,
        x,
    )
}

/// A graph whose entry points and edges are those of the inputs reaches
/// exactly what the inputs reach.
pub proof fn lemma_graph_reaches_inputs(
    fg: &FileImportGraph,
    files: Seq<String>,
    entries: Seq<String>,
    parsed: Seq<ParsedFile>,
)
    requires
        forall|p: Seq<char>| #[trigger] fg.is_entry(p) <==> input_entry(files, entries, p),
        forall|a: Seq<char>, b: Seq<char>| #[trigger] fg.has_edge(a, b) <==> input_edge(parsed, a, b),
    ensures
        forall|p: Seq<char>| #[trigger] fg.reachable(p) <==> input_reachable(files, entries, parsed, p),
{
    assert forall|w: Seq<Seq<char>>| #[trigger] fg.is_walk(w) <==> input_walk(files, entries, parsed, w) by {
        if fg.is_walk(w) {
            assert forall|i: int| 0 <= i < w.len() - 1 implies input_edge(parsed, #[trigger] w[i], w[i + 1]) by {
                assert(fg.has_edge(w[i], w[i + 1]));
            }
        }
        if input_walk(files, entries, parsed, w) {
            assert forall|i: int| 0 <= i < w.len() - 1 implies fg.has_edge(#[trigger] w[i], w[i + 1]) by {
                assert(input_edge(parsed, w[i], w[i + 1]));
            }
        }
    }
    assert forall|p: Seq<char>| #[trigger] fg.reachable(p) <==> input_reachable(files, entries, parsed, p) by {
        if fg.reachable(p) {
            let w = choose|w: Seq<Seq<char>>| #[trigger] fg.is_walk(w) && w.last() == p;
            assert(input_walk(files, entries, parsed, w));
        }
        if input_reachable(files, entries, parsed, p) {
            let w = choose|w: Seq<Seq<char>>| #[trigger] input_walk(files, entries, parsed, w) && w.last() == p;
            assert(fg.is_walk(w));
        }
    }
}

/// Runs the whole analysis: builds the graphs from the discovered files,
/// the entry points, the parsed files and the declared packages, then
/// applies the three rules.
pub fn analyze_project(
    files: &Vec<String>,
    entry_points: &Vec<String>,
    parsed_files: &Vec<ParsedFile>,
    dependencies: &Vec<(String, String)>,
) -> (r: AnalysisReport)
    ensures
        project_report_matches(&r, files@, entry_points@, parsed_files@, dependencies@),
{
    let (fg, sg, dg) = build_graphs(files, entry_points, parsed_files, dependencies);
    let r = RulesEngine::analyze(&dg, &fg, &sg);
    proof {
        let (fs, es, ps, ds) = (files@, entry_points@, parsed_files@, dependencies@);
        lemma_graph_reaches_inputs(&fg, fs, es, ps);
        crate::rules::lemma_unused_files_complement(&fg);
        dg.lemma_unused_upto_members(dg.dependencies@.len() as int);
        let u = dg.unused();
        assert forall|n: Seq<char>| #[trigger] lists_package(r.unused_dependencies@, n) <==> (input_declares(ds, n)
            && !input_imports_package(ps, n)) by {
            if lists_package(r.unused_dependencies@, n) {
                let k = choose|k: int| 0 <= k < r.unused_dependencies@.len() && #[trigger] r.unused_dependencies@[k].name@ == n;
                assert(u.contains(u[k]));
                let i = choose|i: int| 0 <= i < dg.dependencies@.len() && #[trigger] dg.dependencies@[i] == u[k] && !u[k].is_used;
                assert(dg.declares(n));
            }
            if input_declares(ds, n) && !input_imports_package(ps, n) {
                assert(dg.declares(n));
                let i = choose|i: int| 0 <= i < dg.dependencies.len() && #[trigger] dg.dependencies@[i].name@ == n;
                assert(u.contains(dg.dependencies@[i]));
                let k = choose|k: int| 0 <= k < u.len() && u[k] == dg.dependencies@[i];
                assert(r.unused_dependencies@[k].name@ == n);
            }
        }
        assert forall|k: int| 0 <= k < r.unused_dependencies@.len() implies declared_pair(
            ds,
            (#[trigger] r.unused_dependencies@[k]).name,
            r.unused_dependencies@[k].version,
        ) by {
            assert(u.contains(u[k]));
            let i = choose|i: int| 0 <= i < dg.dependencies@.len() && #[trigger] dg.dependencies@[i] == u[k] && !u[k].is_used;
            assert(from_manifest(ds, dg.dependencies@[i]));
        }
        assert forall|x: UnusedExport| #[trigger] r.unused_exports@.contains(x) <==> input_export_finding(fs, es, ps, x) by {
            if r.unused_exports@.contains(x) {
                let i = choose|i: int|
                    0 <= i < sg.exports.len() && fg.reachable(sg.exports@[i].0@) && !sg.is_referenced(
                        sg.exports@[i].1.name@,
                    ) && x == export_finding(#[trigger] sg.exports@[i].1);
                assert(sg.has_export(sg.exports@[i].0@, sg.exports@[i].1));
                assert(input_export(ps, sg.exports@[i].0@, sg.exports@[i].1));
            }
            if input_export_finding(fs, es, ps, x) {
                let (f, s) = choose|f: Seq<char>, s: Symbol|
                    #[trigger] input_export(ps, f, s) && input_reachable(fs, es, ps, f) && !input_referenced(ps, s.name@)
                        && x == export_finding(s);
                assert(sg.has_export(f, s));
                let i = choose|i: int| 0 <= i < sg.exports.len() && sg.exports@[i].0@ == f && #[trigger] sg.exports@[i].1 == s;
                assert(crate::rules::is_export_finding(&sg, &fg, x));
            }
        }
    }
    r
}

/// A reference named `n` in any parsed file, reachable or not and whatever
/// imports it, keeps every export named `n` out of the findings.
pub proof fn lemma_name_global_liveness(
    files: Seq<String>,
    entries: Seq<String>,
    parsed: Seq<ParsedFile>,
    deps: Seq<(String, String)>,
    r: &AnalysisReport,
    n: Seq<char>,
)
    requires
        project_report_matches(r, files, entries, parsed, deps),
        input_referenced(parsed, n),
    ensures
        forall|k: int| 0 <= k < r.unused_exports@.len() ==> (#[trigger] r.unused_exports@[k]).name@ != n,
{
    assert forall|k: int| 0 <= k < r.unused_exports@.len() implies (#[trigger] r.unused_exports@[k]).name@ != n by {
        let x = r.unused_exports@[k];
        assert(r.unused_exports@.contains(x));
        let (f, s) = choose|f: Seq<char>, s: Symbol|
            #[trigger] input_export(parsed, f, s) && input_reachable(files, entries, parsed, f) && !input_referenced(
                parsed,
                s.name@,
            ) && x == export_finding(s);
    }
}

/// Two analyses of the same inputs report the same findings, each category
/// taken as a set.
pub proof fn lemma_analysis_idempotent(
    files: Seq<String>,
    entries: Seq<String>,
    parsed: Seq<ParsedFile>,
    deps: Seq<(String, String)>,
    r1: &AnalysisReport,
    r2: &AnalysisReport,
)
    requires
        project_report_matches(r1, files, entries, parsed, deps),
        project_report_matches(r2, files, entries, parsed, deps),
    ensures
        forall|n: Seq<char>| #[trigger] lists_package(r1.unused_dependencies@, n) == lists_package(
            r2.unused_dependencies@,
            n,
        ),
        forall|p: Seq<char>| #[trigger] crate::rules::lists_path(r1.unused_files@, p) == crate::rules::lists_path(
            r2.unused_files@,
            p,
        ),
        forall|x: UnusedExport| #[trigger] r1.unused_exports@.contains(x) == r2.unused_exports@.contains(x),
{
}

} // verus!
