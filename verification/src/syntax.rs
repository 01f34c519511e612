use vstd::prelude::*;

verus! {

// ---------------------------------------------------------------------------
// The syntax the extractor reads.
//
// A parsed source file is reduced to this tree: the import-bearing
// statement forms keep their specifier strings, call expressions keep
// their callee and arguments, and every other node only carries its
// sub-expressions in source order, so traversal still reaches imports
// nested anywhere.
// ---------------------------------------------------------------------------

/// An expression, reduced to what import extraction reads.
pub enum Expr {
    /// A string literal.
    Str(String),
    /// An identifier, with its name.
    Ident(String),
    /// A call `callee(args...)`.
    Call { callee: Box<Expr>, args: Vec<Expr> },
    /// A dynamic import `import(args...)`.
    DynImport { args: Vec<Expr> },
    /// A member access `object.name` or `object[index]`.
    Member { object: Box<Expr>, index: Option<Box<Expr>> },
    /// Any other expression, with its sub-expressions in source order.
    Other { children: Vec<Expr> },
}

/// A statement, reduced to what import extraction reads.
pub enum Stmt {
    /// `import ... from "source"`.
    Import { source: String },
    /// `export * from "source"`.
    ExportAll { source: String },
    /// A named re-export `export {...} from "source"`, or a plain
    /// `export {...}` without a source.
    ExportNamed { source: Option<String> },
    /// Any other statement, with the expressions under it in source
    /// order.
    Other { exprs: Vec<Expr> },
}

/// One parsed source file.
pub struct Module {
    pub stmts: Vec<Stmt>,
}

// ---------------------------------------------------------------------------
// What extraction yields, as a specification.
// ---------------------------------------------------------------------------

/// Whether a callee is the bare identifier `require`.
pub open spec fn callee_is_require(e: Expr) -> bool {
    match e {
        Expr::Ident(n) => n@ == "require"@,
        _ => false,
    }
}

/// The first argument when it is a string literal; dynamic imports and
/// require calls yield a specifier only in that case.
pub open spec fn first_str_arg(args: Seq<Expr>) -> Option<Seq<char>> {
    if args.len() > 0 {
        match args[0] {
            Expr::Str(s) => Some(s@),
            _ => None,
        }
    } else {
        None
    }
}

/// The specifiers an expression yields, in source order: a `require`
/// call or dynamic import with a string-literal first argument yields
/// that literal, and every sub-expression is traversed in turn.
pub open spec fn expr_specifiers(e: Expr) -> Seq<Seq<char>>
    decreases e,
{
    match e {
        Expr::Str(_) => Seq::<Seq<char>>::empty(),
        Expr::Ident(_) => Seq::<Seq<char>>::empty(),
        Expr::Call { callee, args } => {
            let head = if callee_is_require(*callee) {
                match first_str_arg(args@) {
                    Some(s) => seq![s],
                    None => Seq::<Seq<char>>::empty(),
                }
            } else {
                Seq::<Seq<char>>::empty()
            };
            head + expr_specifiers(*callee) + exprs_specifiers(args@)
        },
        Expr::DynImport { args } => {
            let head = match first_str_arg(args@) {
                Some(s) => seq![s],
                None => Seq::<Seq<char>>::empty(),
            };
            head + exprs_specifiers(args@)
        },
        Expr::Member { object, index } => expr_specifiers(*object) + (match index {
            Some(ix) => expr_specifiers(*ix),
            None => Seq::<Seq<char>>::empty(),
        }),
        Expr::Other { children } => exprs_specifiers(children@),
    }
}

/// The specifiers of a list of expressions, in order.
pub open spec fn exprs_specifiers(es: Seq<Expr>) -> Seq<Seq<char>>
    decreases es,
{
    if es.len() == 0 {
        Seq::<Seq<char>>::empty()
    } else {
        exprs_specifiers(es.drop_last()) + expr_specifiers(es.last())
    }
}

/// The specifiers a statement yields: each import-bearing form yields its
/// source, every other statement yields what its expressions yield.
pub open spec fn stmt_specifiers(st: Stmt) -> Seq<Seq<char>> {
    match st {
        Stmt::Import { source } => seq![source@],
        Stmt::ExportAll { source } => seq![source@],
        Stmt::ExportNamed { source } => match source {
            Some(s) => seq![s@],
            None => Seq::<Seq<char>>::empty(),
        },
        Stmt::Other { exprs } => exprs_specifiers(exprs@),
    }
}

/// The specifiers of a whole module, statement by statement in order.
pub open spec fn module_specifiers(stmts: Seq<Stmt>) -> Seq<Seq<char>>
    decreases stmts.len(),
{
    if stmts.len() == 0 {
        Seq::<Seq<char>>::empty()
    } else {
        module_specifiers(stmts.drop_last()) + stmt_specifiers(stmts.last())
    }
}

// ---------------------------------------------------------------------------
// Laws of extraction.
// ---------------------------------------------------------------------------

/// A `require` call whose one argument is a string literal yields exactly
/// that literal.
pub proof fn lemma_require_call_specifier(callee: Box<Expr>, args: Vec<Expr>, s: Seq<char>)
    requires
        callee_is_require(*callee),
        args@.len() == 1,
        first_str_arg(args@) == Some(s),
    ensures
        expr_specifiers(Expr::Call { callee, args }) == seq![s],
{
    let e = Expr::Call { callee, args };
    assert(expr_specifiers(*callee) =~= Seq::<Seq<char>>::empty());
    let a0 = args@[0];
    assert(a0 is Str);
    assert(expr_specifiers(a0) =~= Seq::<Seq<char>>::empty());
    assert(args@.drop_last() =~= Seq::<Expr>::empty());
    assert(exprs_specifiers(Seq::<Expr>::empty()) =~= Seq::<Seq<char>>::empty());
    assert(args@.last() == a0);
    assert(exprs_specifiers(args@) =~= Seq::<Seq<char>>::empty());
    assert(expr_specifiers(e) =~= seq![s]);
}

/// Member-accessing an expression (without a computed index) adds no
/// specifier: `require("x").y` yields exactly what `require("x")` yields,
/// so the two forms resolve to the same target path.
pub proof fn lemma_member_preserves_specifiers(object: Box<Expr>)
    ensures
        expr_specifiers(Expr::Member { object, index: None }) == expr_specifiers(*object),
{
    assert(expr_specifiers(Expr::Member { object, index: None }) =~= expr_specifiers(*object));
}

/// A `require` call and the same call with its result member-accessed
/// yield the same single specifier, so the two forms resolve to the same
/// target path in every resolution context.
pub proof fn lemma_require_member_same_target(
    callee: Box<Expr>,
    args: Vec<Expr>,
    s: Seq<char>,
    object: Box<Expr>,
    dir: Seq<char>,
    existing: Seq<Seq<char>>,
)
    requires
        callee_is_require(*callee),
        args@.len() == 1,
        first_str_arg(args@) == Some(s),
        *object == (Expr::Call { callee, args }),
    ensures
        expr_specifiers(*object) == seq![s],
        expr_specifiers(Expr::Member { object, index: None }) == seq![s],
        crate::resolve::spec_resolve(expr_specifiers(*object)[0], dir, existing)
            == crate::resolve::spec_resolve(
            expr_specifiers(Expr::Member { object, index: None })[0],
            dir,
            existing,
        ),
{
    lemma_require_call_specifier(callee, args, s);
    lemma_member_preserves_specifiers(object);
}

/// A dynamic import whose one argument is a string literal yields exactly
/// that literal.
pub proof fn lemma_dynimport_literal(args: Vec<Expr>, s: Seq<char>)
    requires
        args@.len() == 1,
        first_str_arg(args@) == Some(s),
    ensures
        expr_specifiers(Expr::DynImport { args }) == seq![s],
{
    let a0 = args@[0];
    assert(a0 is Str);
    assert(expr_specifiers(a0) =~= Seq::<Seq<char>>::empty());
    assert(args@.drop_last() =~= Seq::<Expr>::empty());
    assert(exprs_specifiers(Seq::<Expr>::empty()) =~= Seq::<Seq<char>>::empty());
    assert(args@.last() == a0);
    assert(exprs_specifiers(args@) =~= Seq::<Seq<char>>::empty());
    assert(expr_specifiers(Expr::DynImport { args }) =~= seq![s]);
}

/// A dynamic import whose first argument is not a string literal yields
/// no specifier of its own: only what its arguments may hold inside.
pub proof fn lemma_dynimport_non_literal(args: Vec<Expr>)
    requires
        first_str_arg(args@) is None,
    ensures
        expr_specifiers(Expr::DynImport { args }) == exprs_specifiers(args@),
{
    assert(expr_specifiers(Expr::DynImport { args }) =~= exprs_specifiers(args@));
}

// ---------------------------------------------------------------------------
// The executable extractor.
// ---------------------------------------------------------------------------

/// Whether `n` is the name `require`.
fn is_require_name(n: &String) -> (b: bool)
    ensures
        b == (n@ == "require"@),
{
    let r = "require".to_owned();
    n.eq(&r)
}

/// Appends `expr_specifiers(*e)` to `out`.
fn collect_expr(e: &Expr, out: &mut Vec<String>)
    ensures
        final(out).deep_view() == old(out).deep_view() + expr_specifiers(*e),
    decreases *e,
{
    let ghost base = out.deep_view();
    match e {
        Expr::Str(_) => {
            proof {
                assert(final(out).deep_view() =~= base + expr_specifiers(*e));
            }
        },
        Expr::Ident(_) => {
            proof {
                assert(final(out).deep_view() =~= base + expr_specifiers(*e));
            }
        },
        Expr::Call { callee, args } => {
            let is_req = match &**callee {
                Expr::Ident(n) => is_require_name(n),
                _ => false,
            };
            if is_req {
                if args.len() > 0 {
                    match &args[0] {
                        Expr::Str(s) => {
                            out.push(s.clone());
                        },
                        _ => {},
                    }
                }
            }
            let ghost head = if callee_is_require(**callee) {
                match first_str_arg(args@) {
                    Some(s) => seq![s],
                    None => Seq::<Seq<char>>::empty(),
                }
            } else {
                Seq::<Seq<char>>::empty()
            };
            proof {
                assert(out.deep_view() =~= base + head);
            }
            collect_expr(&**callee, out);
            collect_exprs(args, out);
            proof {
                assert(final(out).deep_view() =~= base + expr_specifiers(*e));
            }
        },
        Expr::DynImport { args } => {
            if args.len() > 0 {
                match &args[0] {
                    Expr::Str(s) => {
                        out.push(s.clone());
                    },
                    _ => {},
                }
            }
            let ghost head = match first_str_arg(args@) {
                Some(s) => seq![s],
                None => Seq::<Seq<char>>::empty(),
            };
            proof {
                assert(out.deep_view() =~= base + head);
            }
            collect_exprs(args, out);
            proof {
                assert(final(out).deep_view() =~= base + expr_specifiers(*e));
            }
        },
        Expr::Member { object, index } => {
            collect_expr(&**object, out);
            match index {
                Some(ix) => {
                    collect_expr(&**ix, out);
                },
                None => {},
            }
            proof {
                assert(final(out).deep_view() =~= base + expr_specifiers(*e));
            }
        },
        Expr::Other { children } => {
            collect_exprs(children, out);
            proof {
                assert(final(out).deep_view() =~= base + expr_specifiers(*e));
            }
        },
    }
}

/// Appends `exprs_specifiers(es@)` to `out`.
fn collect_exprs(es: &Vec<Expr>, out: &mut Vec<String>)
    ensures
        final(out).deep_view() == old(out).deep_view() + exprs_specifiers(es@),
    decreases es@,
{
    let ghost base = out.deep_view();
    let mut k: usize = 0;
    proof {
        assert(es@.subrange(0, 0) =~= Seq::<Expr>::empty());
        assert(base + exprs_specifiers(es@.subrange(0, 0)) =~= base);
    }
    while k < es.len()
        invariant
            k <= es.len(),
            out.deep_view() == base + exprs_specifiers(es@.subrange(0, k as int)),
        decreases es@.len() - k,
    {
        let ghost t = es@.subrange(0, k as int);
        let ghost t2 = es@.subrange(0, k + 1int);
        proof {
            assert(t2.drop_last() =~= t);
            assert(t2.last() == es@[k as int]);
            assert(decreases_to!(es@ => es@[k as int]));
        }
        collect_expr(&es[k], out);
        proof {
            assert(out.deep_view() =~= base + exprs_specifiers(t2));
        }
        k = k + 1;
    }
    proof {
        assert(es@.subrange(0, es@.len() as int) =~= es@);
    }
}

/// Appends `stmt_specifiers(*st)` to `out`.
fn collect_stmt(st: &Stmt, out: &mut Vec<String>)
    ensures
        final(out).deep_view() == old(out).deep_view() + stmt_specifiers(*st),
{
    let ghost base = out.deep_view();
    match st {
        Stmt::Import { source } => {
            out.push(source.clone());
            proof {
                assert(final(out).deep_view() =~= base + stmt_specifiers(*st));
            }
        },
        Stmt::ExportAll { source } => {
            out.push(source.clone());
            proof {
                assert(final(out).deep_view() =~= base + stmt_specifiers(*st));
            }
        },
        Stmt::ExportNamed { source } => {
            match source {
                Some(s) => {
                    out.push(s.clone());
                },
                None => {},
            }
            proof {
                assert(final(out).deep_view() =~= base + stmt_specifiers(*st));
            }
        },
        Stmt::Other { exprs } => {
            collect_exprs(exprs, out);
            proof {
                assert(final(out).deep_view() =~= base + stmt_specifiers(*st));
            }
        },
    }
}

impl Module {
    /// The raw import specifiers of the whole module, in source order:
    /// static imports, re-exports with a source, dynamic imports and
    /// `require` calls with a string-literal first argument, wherever
    /// they are nested — a `require` whose result is member-accessed
    /// included.
    pub fn extract_imports(&self) -> (r: Vec<String>)
        ensures
            r.deep_view() == module_specifiers(self.stmts@),
    {
        let mut out: Vec<String> = Vec::new();
        let mut k: usize = 0;
        proof {
            assert(out.deep_view() =~= Seq::<Seq<char>>::empty());
            assert(self.stmts@.subrange(0, 0) =~= Seq::<Stmt>::empty());
            assert(Seq::<Seq<char>>::empty() + module_specifiers(self.stmts@.subrange(0, 0))
                =~= Seq::<Seq<char>>::empty());
        }
        while k < self.stmts.len()
            invariant
                k <= self.stmts.len(),
                out.deep_view() == module_specifiers(self.stmts@.subrange(0, k as int)),
            decreases self.stmts@.len() - k,
        {
            let ghost t = self.stmts@.subrange(0, k as int);
            let ghost t2 = self.stmts@.subrange(0, k + 1int);
            proof {
                assert(t2.drop_last() =~= t);
                assert(t2.last() == self.stmts@[k as int]);
            }
            collect_stmt(&self.stmts[k], &mut out);
            proof {
                assert(out.deep_view() =~= module_specifiers(t2));
            }
            k = k + 1;
        }
        proof {
            assert(self.stmts@.subrange(0, self.stmts@.len() as int) =~= self.stmts@);
        }
        out
    }
}

} // verus!
