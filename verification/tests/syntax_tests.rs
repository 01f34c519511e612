use amas::syntax::Expr;
use amas::syntax::Module;
use amas::syntax::Stmt;

fn s(v: &str) -> String {
    v.to_string()
}

fn require_call(spec: &str) -> Expr {
    Expr::Call {
        callee: Box::new(Expr::Ident(s("require"))),
        args: vec![Expr::Str(s(spec))],
    }
}

fn extract(stmts: Vec<Stmt>) -> Vec<String> {
    Module { stmts }.extract_imports()
}

#[test]
fn static_import_yields_its_source() {
    let got = extract(vec![Stmt::Import { source: s("./a") }]);
    assert_eq!(got, vec![s("./a")]);
}

#[test]
fn reexports_yield_their_source_when_present() {
    let got = extract(vec![
        Stmt::ExportAll { source: s("./all") },
        Stmt::ExportNamed { source: Some(s("./named")) },
        Stmt::ExportNamed { source: None },
    ]);
    assert_eq!(got, vec![s("./all"), s("./named")]);
}

#[test]
fn require_and_member_accessed_require_yield_the_same_specifier() {
    let plain = extract(vec![Stmt::Other { exprs: vec![require_call("./x")] }]);
    let member = extract(vec![Stmt::Other {
        exprs: vec![Expr::Member { object: Box::new(require_call("./x")), index: None }],
    }]);
    assert_eq!(plain, vec![s("./x")]);
    assert_eq!(member, plain);
}

#[test]
fn require_with_non_literal_argument_yields_nothing() {
    let call = Expr::Call {
        callee: Box::new(Expr::Ident(s("require"))),
        args: vec![Expr::Ident(s("dynamicName"))],
    };
    let got = extract(vec![Stmt::Other { exprs: vec![call] }]);
    assert!(got.is_empty());
}

#[test]
fn call_of_other_identifier_yields_nothing() {
    let call = Expr::Call {
        callee: Box::new(Expr::Ident(s("load"))),
        args: vec![Expr::Str(s("./x"))],
    };
    let got = extract(vec![Stmt::Other { exprs: vec![call] }]);
    assert!(got.is_empty());
}

#[test]
fn dynamic_import_with_string_literal_resolves() {
    let got = extract(vec![Stmt::Other {
        exprs: vec![Expr::DynImport { args: vec![Expr::Str(s("./y"))] }],
    }]);
    assert_eq!(got, vec![s("./y")]);
}

#[test]
fn dynamic_import_with_non_literal_argument_yields_nothing() {
    let got = extract(vec![Stmt::Other {
        exprs: vec![Expr::DynImport { args: vec![Expr::Ident(s("name"))] }],
    }]);
    assert!(got.is_empty());
}

#[test]
fn traversal_reaches_imports_nested_in_call_arguments() {
    // a require buried inside another call's argument list is still found
    let outer = Expr::Call {
        callee: Box::new(Expr::Ident(s("wrap"))),
        args: vec![Expr::Other { children: vec![require_call("./deep")] }],
    };
    let got = extract(vec![Stmt::Other { exprs: vec![outer] }]);
    assert_eq!(got, vec![s("./deep")]);
}

#[test]
fn dynamic_import_with_non_literal_argument_still_traverses_it() {
    let got = extract(vec![Stmt::Other {
        exprs: vec![Expr::DynImport { args: vec![Expr::Other { children: vec![require_call("./z")] }] }],
    }]);
    assert_eq!(got, vec![s("./z")]);
}

#[test]
fn specifiers_come_in_source_order() {
    let got = extract(vec![
        Stmt::Import { source: s("./first") },
        Stmt::Other { exprs: vec![require_call("./second"), require_call("./third")] },
        Stmt::ExportAll { source: s("./fourth") },
    ]);
    assert_eq!(got, vec![s("./first"), s("./second"), s("./third"), s("./fourth")]);
}

#[test]
fn computed_member_index_is_traversed() {
    let m = Expr::Member {
        object: Box::new(Expr::Ident(s("table"))),
        index: Some(Box::new(require_call("./key"))),
    };
    let got = extract(vec![Stmt::Other { exprs: vec![m] }]);
    assert_eq!(got, vec![s("./key")]);
}
