use sweepr::ast::{
    Argument, ArrayElement, Declaration, Declarator, DefaultDeclaration, ExportDefaultDeclaration,
    ExportNamedDeclaration, ExportSpecifier, Expr, ForInit, Ident, ImportDeclaration, ImportSpecifier,
    ObjectProperty, Program, Stmt, VariableDeclaration,
};
use sweepr::error::PurgeError;
use sweepr::parser::{AstAnalyzer, ParsedFile};
use sweepr::pipeline::analyze_project;
use sweepr::rules::AnalysisReport;

fn s(x: &str) -> String {
    x.to_string()
}

fn ident(name: &str, start: usize) -> Ident {
    Ident { name: s(name), span: (start, start + name.len()) }
}

fn id_expr(name: &str) -> Expr {
    Expr::Identifier(ident(name, 0))
}

fn call(name: &str, args: Vec<Expr>) -> Stmt {
    Stmt::Expression(Expr::Call {
        callee: Box::new(id_expr(name)),
        arguments: args.into_iter().map(Argument::Expression).collect(),
    })
}

fn import(source: &str, names: &[&str]) -> Stmt {
    Stmt::Import(ImportDeclaration {
        source: s(source),
        specifiers: names.iter().map(|n| ImportSpecifier::Named(s(n))).collect(),
        is_type_only: false,
    })
}

fn export_fn(name: &str, start: usize) -> Stmt {
    Stmt::ExportNamed(ExportNamedDeclaration {
        declaration: Some(Declaration::Function(Some(ident(name, start)))),
        specifiers: vec![],
    })
}

fn parse(path: &str, body: Vec<Stmt>) -> ParsedFile {
    AstAnalyzer::analyze_program(s(path), &Program { body })
}

fn strings(v: &[&str]) -> Vec<String> {
    v.iter().map(|x| s(x)).collect()
}

fn run(files: &[&str], entries: &[&str], parsed: Vec<ParsedFile>, deps: &[(&str, &str)]) -> AnalysisReport {
    let deps: Vec<(String, String)> = deps.iter().map(|(a, b)| (s(a), s(b))).collect();
    analyze_project(&strings(files), &strings(entries), &parsed, &deps)
}

fn sorted(mut v: Vec<String>) -> Vec<String> {
    v.sort();
    v
}

fn dep_names(r: &AnalysisReport) -> Vec<String> {
    sorted(r.unused_dependencies.iter().map(|d| d.name.clone()).collect())
}

fn file_paths(r: &AnalysisReport) -> Vec<String> {
    sorted(r.unused_files.iter().map(|f| f.path.clone()).collect())
}

fn export_names(r: &AnalysisReport) -> Vec<(String, String)> {
    let mut v: Vec<(String, String)> = r.unused_exports.iter().map(|e| (e.name.clone(), e.file.clone())).collect();
    v.sort();
    v
}

#[test]
fn test_dependencies_fixture() {
    // entry.ts imports my-module.ts and five packages; unused-module.ts is
    // never imported; the manifest also declares fs-extra, mocha and stream.
    let dir = "tests/fixtures/dependencies";
    let entry = format!("{}/entry.ts", dir);
    let my_module = format!("{}/my-module.ts", dir);
    let unused_module = format!("{}/unused-module.ts", dir);
    let parsed = vec![
        parse(
            &entry,
            vec![
                import("@sindresorhus/is", &["default"]),
                import("has", &["default"]),
                import("JSONStream", &["parse"]),
                import("@tootallnate/once/dist/index", &["once"]),
                import("ansi-regex", &["default"]),
                import("./my-module.ts", &["helper"]),
                call("helper", vec![]),
            ],
        ),
        parse(&my_module, vec![export_fn("helper", 16)]),
        parse(&unused_module, vec![export_fn("unusedThing", 16)]),
    ];
    let r = run(
        &[&entry, &my_module, &unused_module],
        &[&entry],
        parsed,
        &[
            ("@sindresorhus/is", "^4.0.0"),
            ("has", "^1.0.3"),
            ("JSONStream", "^1.3.5"),
            ("@tootallnate/once", "^2.0.0"),
            ("ansi-regex", "^5.0.1"),
            ("fs-extra", "^10.0.0"),
            ("mocha", "^9.0.0"),
            ("stream", "^0.0.2"),
        ],
    );
    assert_eq!(dep_names(&r), strings(&["fs-extra", "mocha", "stream"]));
    assert_eq!(file_paths(&r), vec![unused_module.clone()]);
    assert!(r.unused_exports.is_empty());
}

#[test]
fn two_file_project_reports_only_unused_export() {
    let parsed = vec![
        parse("entry.ts", vec![import("./lib.ts", &["used"]), call("used", vec![])]),
        parse("lib.ts", vec![export_fn("used", 16), export_fn("unused", 40)]),
    ];
    let r = run(&["entry.ts", "lib.ts"], &["entry.ts"], parsed, &[]);
    assert_eq!(export_names(&r), vec![(s("unused"), s("lib.ts"))]);
    assert_eq!(r.unused_exports[0].line, 40);
    assert_eq!(r.unused_exports[0].column, 46);
    assert!(r.unused_files.is_empty());
    assert!(r.unused_dependencies.is_empty());
}

#[test]
fn orphan_file_is_unused_and_its_exports_are_not_listed() {
    let parsed = vec![
        parse("src/entry.ts", vec![import("./a.ts", &["a"]), call("a", vec![])]),
        parse("src/a.ts", vec![export_fn("a", 16)]),
        parse("src/orphan.ts", vec![export_fn("orphanFn", 16)]),
    ];
    let r = run(&["src/entry.ts", "src/a.ts", "src/orphan.ts"], &["src/entry.ts"], parsed, &[]);
    assert_eq!(file_paths(&r), strings(&["src/orphan.ts"]));
    assert!(r.unused_exports.iter().all(|e| e.name != "orphanFn"));
    assert!(r.unused_exports.is_empty());
}

#[test]
fn declared_package_never_imported_is_unused() {
    let parsed = vec![parse("index.ts", vec![call("main", vec![])])];
    let r = run(&["index.ts"], &["index.ts"], parsed, &[("lodash", "^4.0.0")]);
    assert_eq!(r.unused_dependencies.len(), 1);
    assert_eq!(r.unused_dependencies[0].name, "lodash");
    assert_eq!(r.unused_dependencies[0].version, "^4.0.0");
}

#[test]
fn scoped_subpath_import_uses_two_segment_package() {
    let parsed = vec![parse("index.ts", vec![import("@scope/pkg/subpath", &["x"])])];
    let r = run(&["index.ts"], &["index.ts"], parsed, &[("@scope/pkg", "1.0.0"), ("@scope", "2.0.0")]);
    assert_eq!(dep_names(&r), strings(&["@scope"]));
    assert_eq!(sweepr::specifier::extract_package_name("@scope/pkg/subpath"), Some(s("@scope/pkg")));
}

#[test]
fn one_parse_error_among_ten_files_is_reported_for_that_file() {
    let mut results: Vec<Result<ParsedFile, PurgeError>> = Vec::new();
    for i in 0..10 {
        if i == 6 {
            results.push(Err(PurgeError::ParseError { path: s("src/bad.ts"), message: s("Unexpected token") }));
        } else {
            results.push(Ok(parse(&format!("src/f{}.ts", i), vec![])));
        }
    }
    match AstAnalyzer::collect_parse_results(results) {
        Err(PurgeError::ParseError { path, message }) => {
            assert_eq!(path, "src/bad.ts");
            assert_eq!(message, "Unexpected token");
        }
        _ => panic!("expected the parse error"),
    }
    let clean: Vec<Result<ParsedFile, PurgeError>> =
        (0..9).map(|i| Ok(parse(&format!("src/f{}.ts", i), vec![export_fn("x", 0)]))).collect();
    match AstAnalyzer::collect_parse_results(clean) {
        Ok(files) => {
            assert_eq!(files.len(), 9);
            assert_eq!(files[8].path, "src/f8.ts");
        }
        Err(_) => panic!("expected every file"),
    }
}

#[test]
fn reference_in_unrelated_unreachable_file_keeps_export_alive() {
    let parsed = vec![
        parse("entry.ts", vec![export_fn("foo", 16)]),
        parse("elsewhere.ts", vec![call("foo", vec![])]),
    ];
    let r = run(&["entry.ts", "elsewhere.ts"], &["entry.ts"], parsed, &[]);
    assert!(r.unused_exports.is_empty());
    assert_eq!(file_paths(&r), strings(&["elsewhere.ts"]));
}

#[test]
fn reference_in_same_file_keeps_export_alive() {
    let parsed = vec![parse("entry.ts", vec![export_fn("foo", 16), call("foo", vec![])])];
    let r = run(&["entry.ts"], &["entry.ts"], parsed, &[]);
    assert!(r.unused_exports.is_empty());
}

#[test]
fn running_twice_gives_the_same_findings() {
    let make = || {
        vec![
            parse("entry.ts", vec![import("./lib.ts", &["a"]), import("react", &["default"]), call("a", vec![])]),
            parse("lib.ts", vec![export_fn("a", 16), export_fn("b", 30)]),
            parse("dead.ts", vec![export_fn("c", 16)]),
        ]
    };
    let files = ["entry.ts", "lib.ts", "dead.ts"];
    let deps = [("react", "18.0.0"), ("left-pad", "1.0.0")];
    let r1 = run(&files, &["entry.ts"], make(), &deps);
    let r2 = run(&files, &["entry.ts"], make(), &deps);
    assert_eq!(dep_names(&r1), dep_names(&r2));
    assert_eq!(file_paths(&r1), file_paths(&r2));
    assert_eq!(export_names(&r1), export_names(&r2));
    assert_eq!(dep_names(&r1), strings(&["left-pad"]));
    assert_eq!(file_paths(&r1), strings(&["dead.ts"]));
    assert_eq!(export_names(&r1), vec![(s("b"), s("lib.ts"))]);
}

#[test]
fn entry_point_is_never_an_unused_file() {
    let parsed = vec![parse("a.ts", vec![]), parse("b.ts", vec![]), parse("c.ts", vec![])];
    let r = run(&["a.ts", "b.ts", "c.ts"], &["a.ts", "c.ts"], parsed, &[]);
    assert_eq!(file_paths(&r), strings(&["b.ts"]));
}

#[test]
fn relative_imports_resolve_through_parent_directories() {
    let parsed = vec![
        parse("src/app/main.ts", vec![import("../util/helpers.ts", &["h"]), call("h", vec![])]),
        parse("src/util/helpers.ts", vec![export_fn("h", 16)]),
    ];
    let r = run(&["src/app/main.ts", "src/util/helpers.ts"], &["src/app/main.ts"], parsed, &[]);
    assert!(r.unused_files.is_empty());
}

#[test]
fn unused_dependency_keeps_first_declared_version() {
    let parsed = vec![parse("index.ts", vec![])];
    let r = run(&["index.ts"], &["index.ts"], parsed, &[("zod", "3.0.0"), ("zod", "9.9.9")]);
    assert_eq!(r.unused_dependencies.len(), 1);
    assert_eq!(r.unused_dependencies[0].version, "3.0.0");
}

#[test]
fn extractor_records_references_of_covered_expressions() {
    // f(a, ...b); obj.prop; x = y + z; [m, ...n, ,]; ({ k: v, ...w });
    let body = vec![
        Stmt::Expression(Expr::Call {
            callee: Box::new(id_expr("f")),
            arguments: vec![Argument::Expression(id_expr("a")), Argument::Spread(id_expr("b"))],
        }),
        Stmt::Expression(Expr::Member { object: Box::new(id_expr("obj")), property: Some(s("prop")), span: (1, 2) }),
        Stmt::Expression(Expr::Assignment {
            right: Box::new(Expr::Binary { left: Box::new(id_expr("y")), right: Box::new(id_expr("z")) }),
        }),
        Stmt::Expression(Expr::Array {
            elements: vec![
                ArrayElement::Expression(id_expr("m")),
                ArrayElement::Spread(id_expr("n")),
                ArrayElement::Elision,
            ],
        }),
        Stmt::Expression(Expr::Object {
            properties: vec![ObjectProperty::Property(id_expr("v")), ObjectProperty::Spread(id_expr("w"))],
        }),
        Stmt::Expression(Expr::Other),
    ];
    let pf = parse("a.ts", body);
    let names: Vec<String> = pf.references.iter().map(|r| r.symbol.clone()).collect();
    assert_eq!(names, strings(&["f", "a", "b", "obj", "prop", "y", "z", "m", "n", "v", "w"]));
    assert!(pf.references.iter().all(|r| r.file == "a.ts"));
    assert!(pf.exports.is_empty());
}

#[test]
fn extractor_records_exports_of_declarations() {
    let var = |names: &[&str], init: &str| VariableDeclaration {
        declarations: names
            .iter()
            .map(|n| Declarator { id: Some(ident(n, 0)), init: Some(id_expr(init)) })
            .collect(),
    };
    let body = vec![
        Stmt::ExportNamed(ExportNamedDeclaration {
            declaration: Some(Declaration::Variable(var(&["p", "q"], "init1"))),
            specifiers: vec![ExportSpecifier { exported: s("renamed"), span: (5, 9) }],
        }),
        Stmt::ExportDefault(ExportDefaultDeclaration {
            declaration: DefaultDeclaration::Function(Some(ident("main", 20))),
            span: (0, 40),
        }),
        Stmt::Function(Some(ident("helper", 50))),
        Stmt::Class(None),
        Stmt::Variable(VariableDeclaration {
            declarations: vec![Declarator { id: None, init: Some(id_expr("skipped")) }],
        }),
        Stmt::For {
            init: Some(ForInit::Variable(var(&["i"], "start"))),
            test: Some(id_expr("cond")),
            body: Box::new(Stmt::Block(vec![Stmt::Class(Some(ident("Inner", 70)))])),
        },
        Stmt::ExportAll,
        Stmt::Other,
    ];
    let pf = parse("m.ts", body);
    let names: Vec<String> = pf.exports.iter().map(|e| e.name.clone()).collect();
    assert_eq!(names, strings(&["p", "q", "renamed", "main", "default", "helper", "Inner"]));
    assert_eq!(pf.exports[4].span, (0, 40));
    let refs: Vec<String> = pf.references.iter().map(|r| r.symbol.clone()).collect();
    assert_eq!(refs, strings(&["init1", "init1", "start", "cond"]));
}

#[test]
fn extractor_walks_if_and_while_statements() {
    let body = vec![
        Stmt::If {
            test: id_expr("t"),
            consequent: Box::new(call("yes", vec![])),
            alternate: Some(Box::new(Stmt::While { test: id_expr("w"), body: Box::new(call("loop", vec![])) })),
        },
    ];
    let pf = parse("m.ts", body);
    let refs: Vec<String> = pf.references.iter().map(|r| r.symbol.clone()).collect();
    assert_eq!(refs, strings(&["t", "yes", "w", "loop"]));
}

#[test]
fn import_statements_split_into_edges_and_packages() {
    let body = vec![
        Stmt::Import(ImportDeclaration {
            source: s("./lib"),
            specifiers: vec![ImportSpecifier::Named(s("a")), ImportSpecifier::Default, ImportSpecifier::Namespace],
            is_type_only: true,
        }),
        import("react", &["useState"]),
    ];
    let pf = parse("src/index.ts", body);
    assert_eq!(pf.imports.len(), 1);
    assert_eq!(pf.imports[0].from, "src/index.ts");
    assert_eq!(pf.imports[0].to, "src/lib");
    assert_eq!(pf.imports[0].imported_symbols, strings(&["a", "default", "*"]));
    assert!(pf.imports[0].is_type_only);
    assert_eq!(pf.package_imports, strings(&["react"]));
}
