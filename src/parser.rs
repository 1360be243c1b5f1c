//! Fact extraction: the import edges, export records and references that a
//! syntax tree yields.

use vstd::prelude::*;
use crate::ast::{
    Argument, ArrayElement, Declaration, Declarator, DefaultDeclaration, Expr, ExportDefaultDeclaration,
    ExportNamedDeclaration, ForInit, Ident, ImportDeclaration, ImportSpecifier, ObjectProperty, Program,
    Stmt, VariableDeclaration,
};
use crate::error::PurgeError;
use crate::graph::{ImportEdge, Symbol, SymbolReference};

verus! {

/// A name, the file it stands in, and its source offsets.
pub type Fact = (Seq<char>, Seq<char>, (usize, usize));

/// An import edge: importing file, resolved target, imported names, and
/// whether the import is of types only.
pub type EdgeFact = (Seq<char>, Seq<char>, Seq<Seq<char>>, bool);

pub open spec fn ident_fact(id: Ident, p: Seq<char>) -> Fact {
    (id.name@, p, id.span)
}

pub open spec fn symbol_fact(s: Symbol) -> Fact {
    (s.name@, s.file@, s.span)
}

pub open spec fn reference_fact(r: SymbolReference) -> Fact {
    (r.symbol@, r.file@, r.span)
}

pub open spec fn edge_fact(e: ImportEdge) -> EdgeFact {
    (e.from@, e.to@, crate::graph::text_seq(e.imported_symbols@), e.is_type_only)
}

/// The references an expression yields, in source order.
pub open spec fn expr_refs(e: Expr, p: Seq<char>) -> Seq<Fact>
    decreases e,
{
    match e {
        Expr::Identifier(id) => seq![ident_fact(id, p)],
        Expr::Call { callee, arguments } => expr_refs(*callee, p) + args_refs(
            arguments@,
            arguments@.len() as int,
            p,
        ),
        Expr::Member { object, property, span } => expr_refs(*object, p) + match property {
            Some(n) => seq![(n@, p, span)],
            None => Seq::empty(),
        },
        Expr::Binary { left, right } => expr_refs(*left, p) + expr_refs(*right, p),
        Expr::Assignment { right } => expr_refs(*right, p),
        Expr::Array { elements } => elements_refs(elements@, elements@.len() as int, p),
        Expr::Object { properties } => properties_refs(properties@, properties@.len() as int, p),
        Expr::Other => Seq::empty(),
    }
}

/// The references of the first `n` call arguments.
pub open spec fn args_refs(s: Seq<Argument>, n: int, p: Seq<char>) -> Seq<Fact>
    decreases s, n,
{
    if n <= 0 || n > s.len() {
        Seq::empty()
    } else {
        args_refs(s, n - 1, p) + match s[n - 1] {
            Argument::Expression(x) => expr_refs(x, p),
            Argument::Spread(x) => expr_refs(x, p),
        }
    }
}

/// The references of the first `n` array elements.
pub open spec fn elements_refs(s: Seq<ArrayElement>, n: int, p: Seq<char>) -> Seq<Fact>
    decreases s, n,
{
    if n <= 0 || n > s.len() {
        Seq::empty()
    } else {
        elements_refs(s, n - 1, p) + match s[n - 1] {
            ArrayElement::Expression(x) => expr_refs(x, p),
            ArrayElement::Spread(x) => expr_refs(x, p),
            ArrayElement::Elision => Seq::empty(),
        }
    }
}

/// The references of the first `n` object properties.
pub open spec fn properties_refs(s: Seq<ObjectProperty>, n: int, p: Seq<char>) -> Seq<Fact>
    decreases s, n,
{
    if n <= 0 || n > s.len() {
        Seq::empty()
    } else {
        properties_refs(s, n - 1, p) + match s[n - 1] {
            ObjectProperty::Property(x) => expr_refs(x, p),
            ObjectProperty::Spread(x) => expr_refs(x, p),
        }
    }
}

/// The facts extracted from one file.
pub struct ParsedFile {
    pub path: String,
    pub imports: Vec<ImportEdge>,
    /// The specifiers of package imports, as written.
    pub package_imports: Vec<String>,
    pub exports: Vec<Symbol>,
    pub references: Vec<SymbolReference>,
}

/// What a file's facts hold: import edges, package specifiers, exports and
/// references.
pub type Facts = (Seq<EdgeFact>, Seq<Seq<char>>, Seq<Fact>, Seq<Fact>);

pub open spec fn facts_of(f: ParsedFile) -> Facts {
    (
        f.imports@.map_values(|e: ImportEdge| edge_fact(e)),
        crate::graph::text_seq(f.package_imports@),
        f.exports@.map_values(|s: Symbol| symbol_fact(s)),
        f.references@.map_values(|r: SymbolReference| reference_fact(r)),
    )
}

pub open spec fn refs_only(r: Seq<Fact>) -> Facts {
    (Seq::empty(), Seq::empty(), Seq::empty(), r)
}

pub open spec fn join_facts(a: Facts, b: Facts) -> Facts {
    (a.0 + b.0, a.1 + b.1, a.2 + b.2, a.3 + b.3)
}


pub open spec fn no_facts() -> Facts {
    (Seq::empty(), Seq::empty(), Seq::empty(), Seq::empty())
}

pub open spec fn exports_only(x: Seq<Fact>) -> Facts {
    (Seq::empty(), Seq::empty(), x, Seq::empty())
}

/// The facts of one declarator: its name as an export when the declaration
/// exports, and the references of its initializer. A destructuring
/// declarator yields nothing.
pub open spec fn declarator_facts(d: Declarator, p: Seq<char>, exported: bool) -> Facts {
    match d.id {
        None => no_facts(),
        Some(id) => (
            Seq::empty(),
            Seq::empty(),
            if exported {
                seq![ident_fact(id, p)]
            } else {
                Seq::empty()
            },
            match d.init {
                Some(e) => expr_refs(e, p),
                None => Seq::empty(),
            },
        ),
    }
}

/// The facts of the first `n` declarators.
pub open spec fn var_facts(s: Seq<Declarator>, n: int, p: Seq<char>, exported: bool) -> Facts
    decreases n,
{
    if n <= 0 || n > s.len() {
        no_facts()
    } else {
        join_facts(var_facts(s, n - 1, p, exported), declarator_facts(s[n - 1], p, exported))
    }
}

/// The names an import statement brings in: `default` for a default
/// specifier, `*` for a namespace.
pub open spec fn imported_names(s: Seq<ImportSpecifier>) -> Seq<Seq<char>> {
    s.map_values(
        |x: ImportSpecifier|
            match x {
                ImportSpecifier::Named(n) => n@,
                ImportSpecifier::Default => seq!['d', 'e', 'f', 'a', 'u', 'l', 't'],
                ImportSpecifier::Namespace => seq!['*'],
            },
    )
}

/// A package import yields its specifier; a relative one yields an edge to
/// the resolved path.
pub open spec fn import_facts(d: ImportDeclaration, p: Seq<char>) -> Facts {
    if crate::specifier::is_package_spec(d.source@) {
        (Seq::empty(), seq![d.source@], Seq::empty(), Seq::empty())
    } else {
        (
            seq![
                (
                    p,
                    crate::specifier::resolved_import(p, d.source@),
                    imported_names(d.specifiers@),
                    d.is_type_only,
                ),
            ],
            Seq::empty(),
            Seq::empty(),
            Seq::empty(),
        )
    }
}

/// A named function or class yields its name as an export.
pub open spec fn named_decl_facts(id: Option<Ident>, p: Seq<char>) -> Facts {
    match id {
        Some(i) => exports_only(seq![ident_fact(i, p)]),
        None => no_facts(),
    }
}

pub open spec fn declaration_facts(d: Declaration, p: Seq<char>) -> Facts {
    match d {
        Declaration::Function(id) => named_decl_facts(id, p),
        Declaration::Class(id) => named_decl_facts(id, p),
        Declaration::Variable(v) => var_facts(v.declarations@, v.declarations@.len() as int, p, true),
        Declaration::Other => no_facts(),
    }
}

/// The export records of `export { .. }` specifiers, by exported name.
pub open spec fn specifier_exports(s: Seq<crate::ast::ExportSpecifier>, p: Seq<char>) -> Seq<Fact> {
    s.map_values(|x: crate::ast::ExportSpecifier| (x.exported@, p, x.span))
}

pub open spec fn export_named_facts(d: ExportNamedDeclaration, p: Seq<char>) -> Facts {
    join_facts(
        match d.declaration {
            Some(x) => declaration_facts(x, p),
            None => no_facts(),
        },
        exports_only(specifier_exports(d.specifiers@, p)),
    )
}

/// A default export yields the name of a named function or class, then
/// always a record named `default` over the whole statement.
pub open spec fn export_default_facts(d: ExportDefaultDeclaration, p: Seq<char>) -> Facts {
    join_facts(
        match d.declaration {
            DefaultDeclaration::Function(id) => named_decl_facts(id, p),
            DefaultDeclaration::Class(id) => named_decl_facts(id, p),
            DefaultDeclaration::Other => no_facts(),
        },
        exports_only(seq![(seq!['d', 'e', 'f', 'a', 'u', 'l', 't'], p, d.span)]),
    )
}

pub open spec fn for_init_facts(init: Option<ForInit>, p: Seq<char>) -> Facts {
    match init {
        Some(ForInit::Variable(v)) => var_facts(v.declarations@, v.declarations@.len() as int, p, false),
        Some(ForInit::Expression(e)) => refs_only(expr_refs(e, p)),
        None => no_facts(),
    }
}

pub open spec fn opt_refs(e: Option<Expr>, p: Seq<char>) -> Facts {
    match e {
        Some(x) => refs_only(expr_refs(x, p)),
        None => no_facts(),
    }
}

/// The facts a statement yields.
pub open spec fn stmt_facts(s: Stmt, p: Seq<char>) -> Facts
    decreases s,
{
    match s {
        Stmt::Import(d) => import_facts(d, p),
        Stmt::ExportNamed(d) => export_named_facts(d, p),
        Stmt::ExportDefault(d) => export_default_facts(d, p),
        Stmt::ExportAll => no_facts(),
        Stmt::Expression(e) => refs_only(expr_refs(e, p)),
        Stmt::Block(b) => body_facts(b@, b@.len() as int, p),
        Stmt::If { test, consequent, alternate } => join_facts(
            join_facts(refs_only(expr_refs(test, p)), stmt_facts(*consequent, p)),
            match alternate {
                Some(a) => stmt_facts(*a, p),
                None => no_facts(),
            },
        ),
        Stmt::While { test, body } => join_facts(refs_only(expr_refs(test, p)), stmt_facts(*body, p)),
        Stmt::For { init, test, body } => join_facts(
            join_facts(for_init_facts(init, p), opt_refs(test, p)),
            stmt_facts(*body, p),
        ),
        Stmt::Function(id) => named_decl_facts(id, p),
        Stmt::Class(id) => named_decl_facts(id, p),
        Stmt::Variable(v) => var_facts(v.declarations@, v.declarations@.len() as int, p, true),
        Stmt::Other => no_facts(),
    }
}

/// The facts of the first `n` statements of a body.
pub open spec fn body_facts(b: Seq<Stmt>, n: int, p: Seq<char>) -> Facts
    decreases b, n,
{
    if n <= 0 || n > b.len() {
        no_facts()
    } else {
        join_facts(body_facts(b, n - 1, p), stmt_facts(b[n - 1], p))
    }
}

/// The facts of a whole file.
pub open spec fn program_facts(prog: Program, p: Seq<char>) -> Facts {
    body_facts(prog.body@, prog.body@.len() as int, p)
}

/// Walks a syntax tree and records its facts.
pub struct AstAnalyzer;

impl AstAnalyzer {
    fn push_reference(name: &String, span: (usize, usize), path: &String, parsed: &mut ParsedFile)
        ensures
            final(parsed).path == old(parsed).path,
            facts_of(*final(parsed)) == join_facts(facts_of(*old(parsed)), refs_only(seq![(name@, path@, span)])),
    {
        let ghost f0 = facts_of(*parsed);
        parsed.references.push(SymbolReference { symbol: name.clone(), file: path.clone(), span });
        proof {
            let f1 = facts_of(*parsed);
            assert(f1.0 =~= f0.0);
            assert(f1.1 =~= f0.1);
            assert(f1.2 =~= f0.2);
            assert(f1.3 =~= f0.3 + seq![(name@, path@, span)]);
        }
    }

    /// Records the references of an expression.
    fn extract_references(expr: &Expr, path: &String, parsed: &mut ParsedFile)
        ensures
            final(parsed).path == old(parsed).path,
            facts_of(*final(parsed)) == join_facts(facts_of(*old(parsed)), refs_only(expr_refs(*expr, path@))),
        decreases expr,
    {
        let ghost f0 = facts_of(*parsed);
        match expr {
            Expr::Identifier(ident) => {
                Self::push_reference(&ident.name, ident.span, path, parsed);
            },
            Expr::Call { callee, arguments } => {
                Self::extract_references(callee, path, parsed);
                let ghost f1 = facts_of(*parsed);
                let mut i: usize = 0;
                proof {
                    assert(decreases_to!(*expr => *arguments));
                }
                while i < arguments.len()
                    invariant
                        decreases_to!(*expr => *arguments),
                        i <= arguments.len(),
                        parsed.path == old(parsed).path,
                        facts_of(*parsed) == join_facts(f1, refs_only(args_refs(arguments@, i as int, path@))),
                    decreases arguments.len() - i,
                {
                    let ghost g = facts_of(*parsed);
                    match &arguments[i] {
                        Argument::Expression(x) => {
                            proof {
                                assert(decreases_to!(*arguments => arguments@));
                                assert(decreases_to!(arguments@ => arguments@[i as int]));
                                assert(decreases_to!(arguments@[i as int] => *x));
                            }
                            Self::extract_references(x, path, parsed)
                        },
                        Argument::Spread(x) => {
                            proof {
                                assert(decreases_to!(*arguments => arguments@));
                                assert(decreases_to!(arguments@ => arguments@[i as int]));
                                assert(decreases_to!(arguments@[i as int] => *x));
                            }
                            Self::extract_references(x, path, parsed)
                        },
                    }
                    proof {
                        assert(facts_of(*parsed) =~~= join_facts(f1, refs_only(args_refs(arguments@, i + 1, path@))));
                    }
                    i = i + 1;
                }
                proof {
                    assert(facts_of(*parsed) =~~= join_facts(f0, refs_only(expr_refs(*expr, path@))));
                }
            },
            Expr::Member { object, property, span } => {
                Self::extract_references(object, path, parsed);
                match property {
                    Some(name) => Self::push_reference(name, *span, path, parsed),
                    None => {},
                }
                proof {
                    assert(facts_of(*parsed) =~~= join_facts(f0, refs_only(expr_refs(*expr, path@))));
                }
            },
            Expr::Binary { left, right } => {
                Self::extract_references(left, path, parsed);
                Self::extract_references(right, path, parsed);
                proof {
                    assert(facts_of(*parsed) =~~= join_facts(f0, refs_only(expr_refs(*expr, path@))));
                }
            },
            Expr::Assignment { right } => {
                Self::extract_references(right, path, parsed);
            },
            Expr::Array { elements } => {
                let mut i: usize = 0;
                proof {
                    assert(decreases_to!(*expr => *elements));
                }
                while i < elements.len()
                    invariant
                        decreases_to!(*expr => *elements),
                        i <= elements.len(),
                        parsed.path == old(parsed).path,
                        facts_of(*parsed) == join_facts(f0, refs_only(elements_refs(elements@, i as int, path@))),
                    decreases elements.len() - i,
                {
                    match &elements[i] {
                        ArrayElement::Expression(x) => {
                            proof {
                                assert(decreases_to!(*elements => elements@));
                                assert(decreases_to!(elements@ => elements@[i as int]));
                                assert(decreases_to!(elements@[i as int] => *x));
                            }
                            Self::extract_references(x, path, parsed)
                        },
                        ArrayElement::Spread(x) => {
                            proof {
                                assert(decreases_to!(*elements => elements@));
                                assert(decreases_to!(elements@ => elements@[i as int]));
                                assert(decreases_to!(elements@[i as int] => *x));
                            }
                            Self::extract_references(x, path, parsed)
                        },
                        ArrayElement::Elision => {},
                    }
                    proof {
                        assert(facts_of(*parsed) =~~= join_facts(f0, refs_only(elements_refs(elements@, i + 1, path@))));
                    }
                    i = i + 1;
                }
            },
            Expr::Object { properties } => {
                let mut i: usize = 0;
                proof {
                    assert(decreases_to!(*expr => *properties));
                }
                while i < properties.len()
                    invariant
                        decreases_to!(*expr => *properties),
                        i <= properties.len(),
                        parsed.path == old(parsed).path,
                        facts_of(*parsed) == join_facts(f0, refs_only(properties_refs(properties@, i as int, path@))),
                    decreases properties.len() - i,
                {
                    match &properties[i] {
                        ObjectProperty::Property(x) => {
                            proof {
                                assert(decreases_to!(*properties => properties@));
                                assert(decreases_to!(properties@ => properties@[i as int]));
                                assert(decreases_to!(properties@[i as int] => *x));
                            }
                            Self::extract_references(x, path, parsed)
                        },
                        ObjectProperty::Spread(x) => {
                            proof {
                                assert(decreases_to!(*properties => properties@));
                                assert(decreases_to!(properties@ => properties@[i as int]));
                                assert(decreases_to!(properties@[i as int] => *x));
                            }
                            Self::extract_references(x, path, parsed)
                        },
                    }
                    proof {
                        assert(facts_of(*parsed) =~~= join_facts(f0, refs_only(properties_refs(properties@, i + 1, path@))));
                    }
                    i = i + 1;
                }
            },
            Expr::Other => {
                proof {
                    assert(facts_of(*parsed) =~~= join_facts(f0, refs_only(expr_refs(*expr, path@))));
                }
            },
        }
    }

    fn push_export(name: &String, span: (usize, usize), path: &String, parsed: &mut ParsedFile)
        ensures
            final(parsed).path == old(parsed).path,
            facts_of(*final(parsed)) == join_facts(facts_of(*old(parsed)), exports_only(seq![(name@, path@, span)])),
    {
        let ghost f0 = facts_of(*parsed);
        parsed.exports.push(Symbol { name: name.clone(), file: path.clone(), span });
        proof {
            assert(facts_of(*parsed) =~~= join_facts(f0, exports_only(seq![(name@, path@, span)])));
        }
    }

    fn push_named(id: &Option<Ident>, path: &String, parsed: &mut ParsedFile)
        ensures
            final(parsed).path == old(parsed).path,
            facts_of(*final(parsed)) == join_facts(facts_of(*old(parsed)), named_decl_facts(*id, path@)),
    {
        match id {
            Some(ident) => Self::push_export(&ident.name, ident.span, path, parsed),
            None => {
                proof {
                    assert(facts_of(*parsed) =~~= join_facts(facts_of(*parsed), no_facts()));
                }
            },
        }
    }

    /// Records each simply bound declarator: its name as an export when
    /// `is_exported`, and the references of its initializer.
    fn handle_variable_declaration(
        var_decl: &VariableDeclaration,
        path: &String,
        parsed: &mut ParsedFile,
        is_exported: bool,
    )
        ensures
            final(parsed).path == old(parsed).path,
            facts_of(*final(parsed)) == join_facts(
                facts_of(*old(parsed)),
                var_facts(var_decl.declarations@, var_decl.declarations@.len() as int, path@, is_exported),
            ),
    {
        let ghost f0 = facts_of(*parsed);
        let ghost ds = var_decl.declarations@;
        proof {
            assert(f0 =~~= join_facts(f0, var_facts(ds, 0, path@, is_exported)));
        }
        let mut i: usize = 0;
        while i < var_decl.declarations.len()
            invariant
                i <= var_decl.declarations.len(),
                ds == var_decl.declarations@,
                parsed.path == old(parsed).path,
                facts_of(*parsed) == join_facts(f0, var_facts(ds, i as int, path@, is_exported)),
            decreases var_decl.declarations.len() - i,
        {
            let declarator = &var_decl.declarations[i];
            let ghost g = facts_of(*parsed);
            match &declarator.id {
                None => {
                    proof {
                        assert(facts_of(*parsed) =~~= join_facts(f0, var_facts(ds, i + 1, path@, is_exported)));
                    }
                },
                Some(ident) => {
                    if is_exported {
                        Self::push_export(&ident.name, ident.span, path, parsed);
                    }
                    let ghost g1 = facts_of(*parsed);
                    match &declarator.init {
                        Some(init) => Self::extract_references(init, path, parsed),
                        None => {},
                    }
                    proof {
                        assert(facts_of(*parsed) =~~= join_facts(f0, var_facts(ds, i + 1, path@, is_exported)));
                    }
                },
            }
            i = i + 1;
        }
    }

    /// The names an import statement brings in.
    fn imported_symbols(specifiers: &Vec<ImportSpecifier>) -> (r: Vec<String>)
        ensures
            crate::graph::text_seq(r@) == imported_names(specifiers@),
    {
        proof {
            reveal_strlit("default");
            reveal_strlit("*");
        }
        let mut r: Vec<String> = Vec::new();
        let mut i: usize = 0;
        while i < specifiers.len()
            invariant
                i <= specifiers.len(),
                crate::graph::text_seq(r@) == imported_names(specifiers@.take(i as int)),
            decreases specifiers.len() - i,
        {
            let name = match &specifiers[i] {
                ImportSpecifier::Named(n) => n.clone(),
                ImportSpecifier::Default => crate::specifier::text_of("default"),
                ImportSpecifier::Namespace => crate::specifier::text_of("*"),
            };
            proof {
                reveal_strlit("default");
                reveal_strlit("*");
                crate::graph::lemma_text_push(r@, name);
                assert(specifiers@.take(i + 1).drop_last() =~= specifiers@.take(i as int));
                assert(imported_names(specifiers@.take(i + 1))[i as int] == name@);
                assert(imported_names(specifiers@.take(i + 1)) =~= imported_names(specifiers@.take(i as int)).push(
                    name@,
                ));
            }
            r.push(name);
            i = i + 1;
        }
        proof {
            assert(specifiers@.take(specifiers.len() as int) =~= specifiers@);
        }
        r
    }

    /// Records the edge of a relative import, or the specifier of a package
    /// import.
    fn handle_import_declaration(import_decl: &ImportDeclaration, path: &String, parsed: &mut ParsedFile)
        ensures
            final(parsed).path == old(parsed).path,
            facts_of(*final(parsed)) == join_facts(facts_of(*old(parsed)), import_facts(*import_decl, path@)),
    {
        let ghost f0 = facts_of(*parsed);
        let source = import_decl.source.as_str();
        if crate::specifier::is_package_specifier(source) {
            let spec_text = import_decl.source.clone();
            proof {
                crate::graph::lemma_text_push(parsed.package_imports@, spec_text);
            }
            parsed.package_imports.push(spec_text);
        } else {
            let edge = ImportEdge {
                from: path.clone(),
                to: crate::specifier::resolve_import(path.as_str(), source),
                imported_symbols: Self::imported_symbols(&import_decl.specifiers),
                is_type_only: import_decl.is_type_only,
            };
            parsed.imports.push(edge);
        }
        proof {
            assert(facts_of(*parsed) =~~= join_facts(f0, import_facts(*import_decl, path@)));
        }
    }

    /// Records the exports of `export ...` with a declaration or specifiers.
    fn handle_export_named_declaration(
        export_decl: &ExportNamedDeclaration,
        path: &String,
        parsed: &mut ParsedFile,
    )
        ensures
            final(parsed).path == old(parsed).path,
            facts_of(*final(parsed)) == join_facts(facts_of(*old(parsed)), export_named_facts(*export_decl, path@)),
    {
        let ghost f0 = facts_of(*parsed);
        match &export_decl.declaration {
            Some(declaration) => match declaration {
                Declaration::Function(id) => Self::push_named(id, path, parsed),
                Declaration::Class(id) => Self::push_named(id, path, parsed),
                Declaration::Variable(var_decl) => Self::handle_variable_declaration(var_decl, path, parsed, true),
                Declaration::Other => {},
            },
            None => {},
        }
        let ghost f1 = facts_of(*parsed);
        let ghost sp = export_decl.specifiers@;
        let mut i: usize = 0;
        while i < export_decl.specifiers.len()
            invariant
                i <= export_decl.specifiers.len(),
                sp == export_decl.specifiers@,
                parsed.path == old(parsed).path,
                facts_of(*parsed) == join_facts(f1, exports_only(specifier_exports(sp.take(i as int), path@))),
            decreases export_decl.specifiers.len() - i,
        {
            let specifier = &export_decl.specifiers[i];
            Self::push_export(&specifier.exported, specifier.span, path, parsed);
            proof {
                assert(specifier_exports(sp.take(i + 1), path@) =~= specifier_exports(sp.take(i as int), path@).push(
                    (specifier.exported@, path@, specifier.span),
                ));
                assert(facts_of(*parsed) =~~= join_facts(f1, exports_only(specifier_exports(sp.take(i + 1), path@))));
            }
            i = i + 1;
        }
        proof {
            assert(sp.take(sp.len() as int) =~= sp);
            assert(facts_of(*parsed) =~~= join_facts(f0, export_named_facts(*export_decl, path@)));
        }
    }

    /// Records the exports of `export default ...`.
    fn handle_export_default_declaration(
        export_decl: &ExportDefaultDeclaration,
        path: &String,
        parsed: &mut ParsedFile,
    )
        ensures
            final(parsed).path == old(parsed).path,
            facts_of(*final(parsed)) == join_facts(facts_of(*old(parsed)), export_default_facts(*export_decl, path@)),
    {
        let ghost f0 = facts_of(*parsed);
        match &export_decl.declaration {
            DefaultDeclaration::Function(id) => Self::push_named(id, path, parsed),
            DefaultDeclaration::Class(id) => Self::push_named(id, path, parsed),
            DefaultDeclaration::Other => {},
        }
        proof {
            reveal_strlit("default");
        }
        let name = crate::specifier::text_of("default");
        Self::push_export(&name, export_decl.span, path, parsed);
        proof {
            assert(facts_of(*parsed) =~~= join_facts(f0, export_default_facts(*export_decl, path@)));
        }
    }

    /// Records the facts of one statement.
    fn visit_statement(stmt: &Stmt, path: &String, parsed: &mut ParsedFile)
        ensures
            final(parsed).path == old(parsed).path,
            facts_of(*final(parsed)) == join_facts(facts_of(*old(parsed)), stmt_facts(*stmt, path@)),
        decreases stmt,
    {
        let ghost f0 = facts_of(*parsed);
        match stmt {
            Stmt::Import(d) => Self::handle_import_declaration(d, path, parsed),
            Stmt::ExportNamed(d) => Self::handle_export_named_declaration(d, path, parsed),
            Stmt::ExportDefault(d) => Self::handle_export_default_declaration(d, path, parsed),
            Stmt::ExportAll => {},
            Stmt::Expression(e) => Self::extract_references(e, path, parsed),
            Stmt::Block(b) => {
                proof {
                    assert(decreases_to!(*stmt => *b));
                }
                Self::visit_module_body(b, path, parsed);
            },
            Stmt::If { test, consequent, alternate } => {
                Self::extract_references(test, path, parsed);
                Self::visit_statement(consequent, path, parsed);
                match alternate {
                    Some(a) => {
                        proof {
                            assert(decreases_to!(*stmt => stmt->alternate));
                            assert(decreases_to!(stmt->alternate => *a));
                        }
                        Self::visit_statement(a, path, parsed)
                    },
                    None => {},
                }
            },
            Stmt::While { test, body } => {
                Self::extract_references(test, path, parsed);
                Self::visit_statement(body, path, parsed);
            },
            Stmt::For { init, test, body } => {
                match init {
                    Some(ForInit::Variable(v)) => Self::handle_variable_declaration(v, path, parsed, false),
                    Some(ForInit::Expression(e)) => Self::extract_references(e, path, parsed),
                    None => {},
                }
                match test {
                    Some(t) => Self::extract_references(t, path, parsed),
                    None => {},
                }
                Self::visit_statement(body, path, parsed);
            },
            Stmt::Function(id) => Self::push_named(id, path, parsed),
            Stmt::Class(id) => Self::push_named(id, path, parsed),
            Stmt::Variable(v) => Self::handle_variable_declaration(v, path, parsed, true),
            Stmt::Other => {},
        }
        proof {
            assert(facts_of(*parsed) =~~= join_facts(f0, stmt_facts(*stmt, path@)));
        }
    }

    /// Records the facts of each statement of a body, in order.
    fn visit_module_body(body: &Vec<Stmt>, path: &String, parsed: &mut ParsedFile)
        ensures
            final(parsed).path == old(parsed).path,
            facts_of(*final(parsed)) == join_facts(facts_of(*old(parsed)), body_facts(body@, body@.len() as int, path@)),
        decreases body,
    {
        let ghost f0 = facts_of(*parsed);
        proof {
            assert(f0 =~~= join_facts(f0, body_facts(body@, 0, path@)));
        }
        let mut i: usize = 0;
        while i < body.len()
            invariant
                i <= body.len(),
                parsed.path == old(parsed).path,
                facts_of(*parsed) == join_facts(f0, body_facts(body@, i as int, path@)),
            decreases body.len() - i,
        {
            proof {
                assert(decreases_to!(*body => body@));
                assert(decreases_to!(body@ => body@[i as int]));
            }
            Self::visit_statement(&body[i], path, parsed);
            proof {
                assert(facts_of(*parsed) =~~= join_facts(f0, body_facts(body@, i + 1, path@)));
            }
            i = i + 1;
        }
    }

    /// The facts of a whole file.
    pub fn analyze_program(path: String, program: &Program) -> (r: ParsedFile)
        ensures
            r.path == path,
            facts_of(r) == program_facts(*program, path@),
    {
        let mut parsed = ParsedFile {
            path: path.clone(),
            imports: Vec::new(),
            package_imports: Vec::new(),
            exports: Vec::new(),
            references: Vec::new(),
        };
        proof {
            assert(facts_of(parsed) =~~= no_facts());
        }
        Self::visit_module_body(&program.body, &path, &mut parsed);
        proof {
            assert(facts_of(parsed) =~~= program_facts(*program, path@));
        }
        parsed
    }

    /// Gathers the per-file results of a parse: every parsed file, in order,
    /// when all succeeded; otherwise the first error.
    pub fn collect_parse_results(results: Vec<Result<ParsedFile, PurgeError>>) -> (r: Result<
        Vec<ParsedFile>,
        PurgeError,
    >)
        ensures
            r is Ok <==> forall|i: int| 0 <= i < results@.len() ==> #[trigger] results@[i] is Ok,
            r matches Ok(v) ==> v@.len() == results@.len() && forall|i: int|
                0 <= i < v@.len() ==> results@[i] == Ok::<ParsedFile, PurgeError>(#[trigger] v@[i]),
            r matches Err(e) ==> exists|i: int|
                0 <= i < results@.len() && results@[i] == Err::<ParsedFile, PurgeError>(e) && forall|j: int|
                    0 <= j < i ==> #[trigger] results@[j] is Ok,
    {
        let ghost all = results@;
        let mut rest = results;
        let mut parsed: Vec<ParsedFile> = Vec::new();
        while rest.len() > 0
            invariant
                all == results@,
                all.len() == parsed@.len() + rest@.len(),
                rest@ == all.skip(parsed@.len() as int),
                forall|i: int| 0 <= i < parsed@.len() ==> all[i] == Ok::<ParsedFile, PurgeError>(#[trigger] parsed@[i]),
            decreases rest.len(),
        {
            let ghost n = parsed@.len();
            let item = rest.remove(0);
            proof {
                assert(rest@ =~= all.skip(n as int + 1));
                assert(item == all[n as int]);
            }
            match item {
                Ok(pf) => parsed.push(pf),
                Err(e) => {
                    proof {
                        assert(all[n as int] == Err::<ParsedFile, PurgeError>(e));
                        assert(!(all[n as int] is Ok));
                        assert(forall|j: int| 0 <= j < n ==> all[j] == Ok::<ParsedFile, PurgeError>(#[trigger] parsed@[j]));
                        assert(forall|j: int| 0 <= j < n ==> #[trigger] all[j] is Ok) by {
                            assert forall|j: int| 0 <= j < n implies #[trigger] all[j] is Ok by {
                                assert(all[j] == Ok::<ParsedFile, PurgeError>(parsed@[j]));
                            }
                        }
                    }
                    return Err(e);
                },
            }
        }
        proof {
            assert forall|i: int| 0 <= i < all.len() implies #[trigger] all[i] is Ok by {
                assert(all[i] == Ok::<ParsedFile, PurgeError>(parsed@[i]));
            }
        }
        Ok(parsed)
    }
}

} // verus!
