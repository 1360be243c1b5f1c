use sweepr::config::{default_true, Config, RulesConfig};
use sweepr::error::PurgeError;
use sweepr::graph::{DependencyGraph, FileImportGraph, ImportEdge, Symbol, SymbolReference, SymbolUsageGraph};
use sweepr::rules::{AnalysisReport, RulesEngine, UnusedDependency, UnusedFile};
use sweepr::scanner::WorkspaceScanner;
use sweepr::specifier::{extract_package_name, is_package_specifier, resolve_import};

fn s(x: &str) -> String {
    x.to_string()
}

fn edge(from: &str, to: &str) -> ImportEdge {
    ImportEdge { from: s(from), to: s(to), imported_symbols: vec![], is_type_only: false }
}

fn sorted(mut v: Vec<String>) -> Vec<String> {
    v.sort();
    v
}

fn reach(g: &FileImportGraph) -> Vec<String> {
    sorted(g.reachable_files())
}

#[test]
fn adding_edge_from_reachable_file_reaches_target() {
    let mut g = FileImportGraph::new();
    g.add_file(s("a"), true);
    g.add_file(s("b"), false);
    g.add_file(s("x"), false);
    g.add_import(edge("a", "b"));
    assert_eq!(reach(&g), vec![s("a"), s("b")]);
    g.add_import(edge("b", "x"));
    assert_eq!(reach(&g), vec![s("a"), s("b"), s("x")]);
}

#[test]
fn file_without_incoming_edges_is_unreachable() {
    let mut g = FileImportGraph::new();
    g.add_file(s("a"), true);
    g.add_file(s("x"), false);
    g.add_import(edge("x", "a"));
    assert_eq!(reach(&g), vec![s("a")]);
}

#[test]
fn traversal_order_does_not_change_reachable_set() {
    let mut g1 = FileImportGraph::new();
    let mut g2 = FileImportGraph::new();
    let files = [("a", true), ("b", false), ("c", false), ("d", true), ("e", false)];
    let edges = [("a", "b"), ("b", "c"), ("c", "a"), ("d", "missing")];
    for (p, e) in files.iter() {
        g1.add_file(s(p), *e);
    }
    for (p, e) in files.iter().rev() {
        g2.add_file(s(p), *e);
    }
    for (f, t) in edges.iter() {
        g1.add_import(edge(f, t));
    }
    for (f, t) in edges.iter().rev() {
        g2.add_import(edge(f, t));
    }
    assert_eq!(reach(&g1), reach(&g2));
    assert_eq!(reach(&g1), vec![s("a"), s("b"), s("c"), s("d"), s("missing")]);
}

#[test]
fn add_file_replaces_vertex_with_same_path() {
    let mut g = FileImportGraph::new();
    g.add_file(s("a"), false);
    g.add_file(s("a"), true);
    assert_eq!(g.files.len(), 1);
    assert!(g.files[0].is_entry_point);
}

#[test]
fn unused_files_rule_excludes_reachable_and_entries() {
    let mut g = FileImportGraph::new();
    g.add_file(s("main.ts"), true);
    g.add_file(s("used.ts"), false);
    g.add_file(s("dead.ts"), false);
    g.add_import(edge("main.ts", "used.ts"));
    let r = RulesEngine::analyze(&DependencyGraph::new(), &g, &SymbolUsageGraph::new());
    let paths: Vec<String> = r.unused_files.iter().map(|f| f.path.clone()).collect();
    assert_eq!(paths, vec![s("dead.ts")]);
}

#[test]
fn unused_exports_in_file_matches_names_globally() {
    let mut sg = SymbolUsageGraph::new();
    sg.add_export(s("a.ts"), Symbol { name: s("foo"), file: s("a.ts"), span: (1, 4) });
    sg.add_export(s("a.ts"), Symbol { name: s("bar"), file: s("a.ts"), span: (5, 8) });
    sg.add_export(s("b.ts"), Symbol { name: s("baz"), file: s("b.ts"), span: (1, 4) });
    sg.add_reference(s("z.ts"), SymbolReference { symbol: s("foo"), file: s("z.ts"), span: (0, 3) });
    let unused = sg.unused_exports_in_file(&s("a.ts"));
    assert_eq!(unused.len(), 1);
    assert_eq!(unused[0].name, "bar");
    assert!(sg.unused_exports_in_file(&s("nothing.ts")).is_empty());
}

#[test]
fn dependency_graph_records_imports_of_declared_packages_only() {
    let mut dg = DependencyGraph::new();
    dg.add_dependency(s("react"), s("18.0.0"));
    dg.add_dependency(s("react"), s("17.0.0"));
    dg.add_dependency(s("vue"), s("3.0.0"));
    dg.record_import("react", s("a.ts"));
    dg.record_import("react", s("b.ts"));
    dg.record_import("angular", s("c.ts"));
    assert_eq!(dg.dependencies.len(), 2);
    assert_eq!(dg.dependencies[0].version, "18.0.0");
    assert_eq!(dg.dependencies[0].import_locations, vec![s("a.ts"), s("b.ts")]);
    let unused = dg.unused_dependencies();
    assert_eq!(unused.len(), 1);
    assert_eq!(unused[0].name, "vue");
    let r = RulesEngine::analyze(&dg, &FileImportGraph::new(), &SymbolUsageGraph::new());
    assert_eq!(r.unused_dependencies.len(), 1);
    assert_eq!(r.unused_dependencies[0].name, "vue");
    assert_eq!(r.unused_dependencies[0].version, "3.0.0");
}

#[test]
fn package_names_from_specifiers() {
    assert_eq!(extract_package_name("lodash"), Some(s("lodash")));
    assert_eq!(extract_package_name("lodash/fp/map"), Some(s("lodash")));
    assert_eq!(extract_package_name("@scope/pkg"), Some(s("@scope/pkg")));
    assert_eq!(extract_package_name("@scope/pkg/deep/path"), Some(s("@scope/pkg")));
    assert_eq!(extract_package_name("@scope"), None);
    assert_eq!(extract_package_name("./local"), None);
    assert_eq!(extract_package_name("../up"), None);
    assert_eq!(extract_package_name("/abs/path"), None);
    assert!(is_package_specifier("react"));
    assert!(!is_package_specifier("./react"));
}

#[test]
fn relative_specifiers_resolve_and_normalize() {
    assert_eq!(resolve_import("entry.ts", "./lib.ts"), "lib.ts");
    assert_eq!(resolve_import("src/entry.ts", "./lib.ts"), "src/lib.ts");
    assert_eq!(resolve_import("src/a/b.ts", "../c/d.ts"), "src/c/d.ts");
    assert_eq!(resolve_import("/root/p/x.ts", "./y/../z.ts"), "/root/p/z.ts");
    assert_eq!(resolve_import("src/x.ts", "/abs/./q.ts"), "/abs/q.ts");
    assert_eq!(resolve_import("x.ts", "../../up.ts"), "../../up.ts");
}

#[test]
fn source_extensions_and_dependency_directories() {
    let sc = WorkspaceScanner::new(s("/w"));
    assert!(sc.is_js_ts_file("src/a.ts"));
    assert!(sc.is_js_ts_file("a.d.ts"));
    assert!(sc.is_js_ts_file("lib/x.mjs"));
    assert!(sc.is_js_ts_file("x.cjs"));
    assert!(sc.is_js_ts_file("comp.tsx"));
    assert!(!sc.is_js_ts_file("data.json"));
    assert!(!sc.is_js_ts_file("src/.ts"));
    assert!(!sc.is_js_ts_file("Makefile"));
    assert!(!sc.is_js_ts_file("dir.ts/readme"));
    assert!(sc.is_in_node_modules("/w/node_modules/pkg/index.js"));
    assert!(sc.is_in_node_modules("node_modules"));
    assert!(!sc.is_in_node_modules("/w/node_modules_backup/a.js"));
    assert!(!sc.is_in_node_modules("/w/src/a.js"));
}

#[test]
fn entry_point_candidates_and_resolution() {
    let sc = WorkspaceScanner::new(s("/w"));
    let c = sc.entry_candidates("src/index");
    assert_eq!(c.len(), 9);
    assert_eq!(c[0], "/w/src/index");
    assert_eq!(c[1], "/w/src/index.ts");
    assert_eq!(c[4], "/w/src/index.jsx");
    assert_eq!(c[5], "/w/src/index/index.ts");
    assert_eq!(c[8], "/w/src/index/index.jsx");
    let mut exists = vec![false; 9];
    exists[2] = true;
    exists[6] = true;
    match sc.resolve_entry_point("src/index", &exists) {
        Ok(p) => assert_eq!(p, "/w/src/index.js"),
        Err(_) => panic!("expected a path"),
    }
    match sc.resolve_entry_point("nope", &vec![false; 9]) {
        Err(PurgeError::InvalidEntryPoint(e)) => assert_eq!(e, "nope"),
        _ => panic!("expected an invalid entry point"),
    }
    let slash = WorkspaceScanner::new(s("/w/"));
    assert_eq!(slash.entry_candidates("a.ts")[0], "/w/a.ts");
    assert_eq!(sc.entry_candidates("/abs/a.ts")[0], "/abs/a.ts");
}

#[test]
fn default_configuration() {
    let c = Config::default();
    assert_eq!(c.entry, vec![s("src/index.ts")]);
    assert_eq!(c.ignore.len(), 5);
    assert_eq!(c.ignore[4], "**/node_modules/**");
    assert!(c.rules.unused_deps && c.rules.unused_exports && c.rules.unused_files);
    assert!(c.framework.is_none());
    assert!(default_true());
    assert_eq!(c.entry_points(vec![]), vec![s("src/index.ts")]);
    assert_eq!(c.entry_points(vec![s("main.ts")]), vec![s("main.ts")]);
}

#[test]
fn disabled_rules_empty_their_findings() {
    let report = AnalysisReport {
        unused_dependencies: vec![UnusedDependency { name: s("a"), version: s("1") }],
        unused_exports: vec![],
        unused_files: vec![UnusedFile { path: s("f.ts") }],
    };
    let rules = RulesConfig { unused_deps: false, unused_exports: true, unused_files: true };
    let r = report.with_rules(&rules);
    assert!(r.unused_dependencies.is_empty());
    assert_eq!(r.unused_files.len(), 1);
    let all = RulesConfig::default();
    assert!(all.unused_deps && all.unused_exports && all.unused_files);
}
