use ljsp_macro_compiler_rs::ast::{
    BinaryOp, ImportDecl, ImportKind, ImportSpec, JsNumber, Kind, Node, Payload, Span, VarKind,
};
use ljsp_macro_compiler_rs::recur::{analyze_recur, lower_recur, recur_error_message, RecurError};
use ljsp_macro_compiler_rs::runtime::{inject_runtime_imports, missing_runtime_names};

fn sp(lo: u32, hi: u32) -> Span {
    Span { lo, hi }
}

fn node(kind: Kind, payload: Payload, children: Vec<Node>) -> Node {
    Node { kind, span: sp(0, 0), payload, children }
}

fn ident_at(name: &str, span: Span) -> Node {
    Node { kind: Kind::EIdent, span, payload: Payload::Name(name.to_string()), children: vec![] }
}

fn ident(name: &str) -> Node {
    ident_at(name, sp(0, 0))
}

fn num(v: f64, text: &str) -> Node {
    node(Kind::ENum, Payload::Number(JsNumber { bits: v.to_bits(), text: text.to_string() }, None), vec![])
}

fn bin(op: BinaryOp, l: Node, r: Node) -> Node {
    node(Kind::EBin, Payload::Binary(op), vec![l, r])
}

fn call(callee: Node, args: Vec<Node>) -> Node {
    let args = args.into_iter().map(|a| node(Kind::Arg, Payload::Empty, vec![a])).collect();
    node(Kind::ECall, Payload::Empty, vec![callee, node(Kind::Args, Payload::Empty, args)])
}

fn stmt(e: Node) -> Node {
    node(Kind::SExpr, Payload::Empty, vec![e])
}

fn ret(e: Node) -> Node {
    node(Kind::SReturn, Payload::Empty, vec![e])
}

fn absent() -> Node {
    node(Kind::Absent, Payload::Empty, vec![])
}

fn block(stmts: Vec<Node>) -> Node {
    node(Kind::SBlock, Payload::Empty, stmts)
}

fn fn_decl(name: &str, params: &[&str], body: Vec<Node>) -> Node {
    node(
        Kind::SFnDecl,
        Payload::Func { is_async: false, is_generator: false, text: String::new() },
        vec![
            node(Kind::Ident, Payload::Name(name.to_string()), vec![]),
            node(
                Kind::Params,
                Payload::Empty,
                params.iter().map(|p| node(Kind::PIdent, Payload::Name(p.to_string()), vec![])).collect(),
            ),
            block(body),
        ],
    )
}

fn arrow(params: &[&str], body: Node) -> Node {
    node(
        Kind::EArrow,
        Payload::Func { is_async: false, is_generator: false, text: String::new() },
        vec![
            node(
                Kind::Params,
                Payload::Empty,
                params.iter().map(|p| node(Kind::PIdent, Payload::Name(p.to_string()), vec![])).collect(),
            ),
            body,
        ],
    )
}

fn module(items: Vec<Node>) -> Node {
    node(Kind::Module, Payload::Empty, items)
}

fn name(n: &Node) -> &str {
    match &n.payload {
        Payload::Name(s) => s.as_str(),
        _ => "",
    }
}

/// `function fact(n, acc) { if (n === 0) return acc; return recur(n - 1, acc * n); }`
fn fact() -> Node {
    fn_decl(
        "fact",
        &["n", "acc"],
        vec![
            node(
                Kind::SIf,
                Payload::Empty,
                vec![bin(BinaryOp::EqEqEq, ident("n"), num(0.0, "0")), ret(ident("acc")), absent()],
            ),
            ret(call(
                ident_at("recur", sp(40, 45)),
                vec![bin(BinaryOp::Sub, ident("n"), num(1.0, "1")), bin(BinaryOp::Mul, ident("acc"), ident("n"))],
            )),
        ],
    )
}

#[test]
fn tail_recur_lowers_to_a_loop() {
    let m = module(vec![fact()]);
    assert!(analyze_recur(&m).is_empty());
    let out = match lower_recur(&m) {
        Ok(out) => out,
        Err(msg) => panic!("unexpected error: {}", msg),
    };
    let body = &out.children[0].children[2];
    assert!(body.kind == Kind::SBlock);
    assert_eq!(body.children.len(), 1);
    let w = &body.children[0];
    assert!(w.kind == Kind::SWhile);
    assert!(matches!(w.children[0].payload, Payload::Bool(true)));
    let inner = &w.children[1];
    // `while (true) { if (n === 0) return acc; { ..; continue; } }`: the body
    // cannot run to its end, so no `return;` follows it.
    assert_eq!(inner.children.len(), 2);
    assert!(inner.children[0].kind == Kind::SIf);
    let step = &inner.children[1];
    assert!(step.kind == Kind::SBlock);
    assert_eq!(step.children.len(), 5);
    let d0 = &step.children[0];
    assert!(d0.kind == Kind::SVar);
    assert!(matches!(d0.payload, Payload::Var(VarKind::Const)));
    assert_eq!(name(&d0.children[0].children[0]), "__next0");
    assert!(d0.children[0].children[1].kind == Kind::EBin);
    assert_eq!(name(&step.children[1].children[0].children[0]), "__next1");
    let a0 = &step.children[2].children[0];
    assert!(a0.kind == Kind::EAssign);
    assert_eq!(name(&a0.children[0]), "n");
    assert_eq!(name(&a0.children[1]), "__next0");
    let a1 = &step.children[3].children[0];
    assert_eq!(name(&a1.children[0]), "acc");
    assert_eq!(name(&a1.children[1]), "__next1");
    assert!(step.children[4].kind == Kind::SContinue);
    assert!(matches!(step.children[4].payload, Payload::Empty));
}

#[test]
fn module_without_recur_is_unchanged() {
    let m = module(vec![stmt(call(ident("log"), vec![ident("x")]))]);
    let out = lower_recur(&m).ok().unwrap();
    assert_eq!(out.children.len(), 1);
    assert_eq!(name(&out.children[0].children[0].children[0]), "log");
}

#[test]
fn recur_outside_a_function_is_reported() {
    let m = module(vec![stmt(call(ident_at("recur", sp(5, 10)), vec![num(1.0, "1")]))]);
    assert_eq!(analyze_recur(&m), vec![RecurError::NotInFunction(sp(5, 10))]);
    assert_eq!(
        lower_recur(&m).err().unwrap(),
        "[AnalysisError] recur is only allowed inside a function: 5..10\n"
    );
}

#[test]
fn recur_not_in_tail_position_is_reported() {
    let f = fn_decl(
        "f",
        &["n"],
        vec![stmt(call(ident_at("recur", sp(7, 12)), vec![ident("n")])), ret(ident("n"))],
    );
    assert_eq!(analyze_recur(&module(vec![f])), vec![RecurError::NotInTailPosition(sp(7, 12))]);
}

#[test]
fn recur_arity_mismatch_is_reported() {
    let f = fn_decl("f", &["a", "b"], vec![ret(call(ident_at("recur", sp(3, 8)), vec![ident("a")]))]);
    let errs = analyze_recur(&module(vec![f]));
    assert_eq!(errs, vec![RecurError::ArityMismatch { span: sp(3, 8), expected: 2, got: 1 }]);
    assert_eq!(recur_error_message(errs[0]), "recur arity mismatch: expected 2 arguments, got 1");
}

#[test]
fn recur_inside_finally_is_reported() {
    let t = node(
        Kind::STry,
        Payload::Empty,
        vec![
            block(vec![]),
            absent(),
            block(vec![ret(call(ident_at("recur", sp(9, 14)), vec![ident("n")]))]),
        ],
    );
    let f = fn_decl("f", &["n"], vec![t]);
    let errs = analyze_recur(&module(vec![f]));
    assert!(errs.contains(&RecurError::InsideFinally(sp(9, 14))));
}

#[test]
fn recur_across_finally_is_reported() {
    let t = node(
        Kind::STry,
        Payload::Empty,
        vec![block(vec![ret(call(ident_at("recur", sp(2, 6)), vec![ident("n")]))]), absent(), block(vec![])],
    );
    let f = fn_decl("f", &["n"], vec![t]);
    let errs = analyze_recur(&module(vec![f]));
    assert!(errs.contains(&RecurError::AcrossFinally(sp(2, 6))));
}

#[test]
fn recur_in_arrow_expression_body_is_reported() {
    let mut a = arrow(&["n"], call(ident("recur"), vec![ident("n")]));
    a.span = sp(20, 40);
    let m = module(vec![stmt(a)]);
    let errs = analyze_recur(&m);
    assert_eq!(errs[0], RecurError::ArrowExpressionBody(sp(20, 40)));
    assert_eq!(
        recur_error_message(errs[0]),
        "recur is NOT allowed in arrow functions with expression bodies"
    );
}

#[test]
fn recur_in_arrow_block_body_lowers() {
    let a = arrow(&["n"], block(vec![ret(call(ident("recur"), vec![ident("n")]))]));
    let m = module(vec![stmt(a)]);
    let out = lower_recur(&m).ok().unwrap();
    let body = &out.children[0].children[0].children[1];
    assert!(body.children[0].kind == Kind::SWhile);
}

#[test]
fn free_runtime_names_are_imported_sorted() {
    let m = module(vec![
        stmt(call(ident("map"), vec![ident("xs")])),
        stmt(call(ident("filter"), vec![ident("ys")])),
        stmt(call(ident("console"), vec![])),
    ]);
    assert_eq!(missing_runtime_names(&m), vec!["filter".to_string(), "map".to_string()]);
    let out = inject_runtime_imports(m);
    assert_eq!(out.children.len(), 4);
    match &out.children[0].payload {
        Payload::Import(d) => {
            assert_eq!(d.src, "ljsp");
            assert_eq!(d.src_raw, Some("'ljsp'".to_string()));
            assert_eq!(d.specifiers.len(), 2);
            assert_eq!(d.specifiers[0].local, "filter");
            assert_eq!(d.specifiers[1].local, "map");
            assert!(d.specifiers[0].kind == ImportKind::Named);
        },
        _ => panic!("expected an import"),
    }
}

#[test]
fn declared_runtime_names_are_not_imported() {
    let decl = node(
        Kind::SVar,
        Payload::Var(VarKind::Const),
        vec![node(
            Kind::Declarator,
            Payload::Empty,
            vec![node(Kind::PIdent, Payload::Name("map".to_string()), vec![]), num(1.0, "1")],
        )],
    );
    let m = module(vec![decl, stmt(call(ident("map"), vec![]))]);
    assert!(missing_runtime_names(&m).is_empty());
    let imported = module(vec![
        node(
            Kind::Import,
            Payload::Import(ImportDecl {
                handle: 3,
                specifiers: vec![ImportSpec { kind: ImportKind::Named, local: "list".to_string(), imported: None }],
                src: "ljsp".to_string(),
                src_raw: None,
            }),
            vec![],
        ),
        stmt(call(ident("list"), vec![])),
    ]);
    assert!(missing_runtime_names(&imported).is_empty());
}

#[test]
fn injection_is_idempotent() {
    let m = module(vec![stmt(call(ident("reduce"), vec![]))]);
    let once = inject_runtime_imports(m);
    assert_eq!(once.children.len(), 2);
    let twice = inject_runtime_imports(once);
    assert_eq!(twice.children.len(), 2);
}

fn holds_recur_call(n: &Node) -> bool {
    let own = n.kind == Kind::ECall
        && !n.children.is_empty()
        && n.children[0].kind == Kind::EIdent
        && name(&n.children[0]) == "recur";
    own || n.children.iter().any(holds_recur_call)
}

#[test]
fn lowered_fact_holds_no_recur_call() {
    let m = module(vec![fact()]);
    assert!(holds_recur_call(&m));
    let out = lower_recur(&m).ok().unwrap();
    assert!(!holds_recur_call(&out));
}

#[test]
fn recur_in_an_if_branch_lowers() {
    // function count(n) { if (n > 0) return recur(n - 1); return n; }
    let f = fn_decl(
        "count",
        &["n"],
        vec![
            node(
                Kind::SIf,
                Payload::Empty,
                vec![
                    bin(BinaryOp::Gt, ident("n"), num(0.0, "0")),
                    ret(call(ident("recur"), vec![bin(BinaryOp::Sub, ident("n"), num(1.0, "1"))])),
                    absent(),
                ],
            ),
            ret(ident("n")),
        ],
    );
    let m = module(vec![f]);
    assert!(analyze_recur(&m).is_empty());
    let out = lower_recur(&m).ok().unwrap();
    assert!(!holds_recur_call(&out));
    let body = &out.children[0].children[2];
    assert!(body.children[0].kind == Kind::SWhile);
    let branch = &body.children[0].children[1].children[0].children[1];
    assert!(branch.kind == Kind::SBlock);
    assert!(branch.children[branch.children.len() - 1].kind == Kind::SContinue);
}

#[test]
fn recur_inside_an_expression_is_not_in_tail_position() {
    // function f(n) { return 1 + recur(n); }
    let f = fn_decl(
        "f",
        &["n"],
        vec![ret(bin(BinaryOp::Add, num(1.0, "1"), call(ident_at("recur", sp(11, 16)), vec![ident("n")])))],
    );
    assert_eq!(analyze_recur(&module(vec![f])), vec![RecurError::NotInTailPosition(sp(11, 16))]);
}

#[test]
fn parenthesized_recur_is_not_in_tail_position() {
    // function f(n) { return (recur(n)); }
    let f = fn_decl(
        "f",
        &["n"],
        vec![ret(node(Kind::EParen, Payload::Empty, vec![call(ident_at("recur", sp(4, 9)), vec![ident("n")])]))],
    );
    assert_eq!(analyze_recur(&module(vec![f])), vec![RecurError::NotInTailPosition(sp(4, 9))]);
}

#[test]
fn recur_returned_inside_a_loop_lowers() {
    // function f(n) { while (n) { return recur(n - 1); } }
    let w = node(
        Kind::SWhile,
        Payload::Empty,
        vec![
            ident("n"),
            block(vec![ret(call(ident_at("recur", sp(30, 35)), vec![bin(BinaryOp::Sub, ident("n"), num(1.0, "1"))]))]),
        ],
    );
    let f = fn_decl("f", &["n"], vec![w]);
    let m = module(vec![f]);
    assert!(analyze_recur(&m).is_empty());
    let out = lower_recur(&m).ok().unwrap();
    assert!(!holds_recur_call(&out));
    // The jump out of the inner loop continues the function's labeled loop.
    let outer = &out.children[0].children[2].children[0];
    assert!(outer.kind == Kind::SLabeled);
    let inner_loop = &outer.children[0].children[1].children[0];
    assert!(inner_loop.kind == Kind::SWhile);
    let step = &inner_loop.children[1].children[0];
    assert!(step.kind == Kind::SBlock);
    let jump = &step.children[step.children.len() - 1];
    assert!(jump.kind == Kind::SContinue);
    assert_eq!(name(jump), "__recur");
}

#[test]
fn recur_ending_an_inner_block_that_is_not_last_is_reported() {
    // function f(n) { { recur(n); } return n; }
    let f = fn_decl(
        "f",
        &["n"],
        vec![block(vec![stmt(call(ident_at("recur", sp(2, 7)), vec![ident("n")]))]), ret(ident("n"))],
    );
    assert_eq!(analyze_recur(&module(vec![f])), vec![RecurError::NotInTailPosition(sp(2, 7))]);
}

#[test]
fn recur_in_try_and_catch_without_finally_lowers() {
    // function f(n) { try { return recur(n); } catch (e) { return recur(n); } }
    let handler = node(
        Kind::Catch,
        Payload::Empty,
        vec![node(Kind::PIdent, Payload::Name("e".to_string()), vec![]), block(vec![ret(call(ident("recur"), vec![ident("n")]))])],
    );
    let t = node(
        Kind::STry,
        Payload::Empty,
        vec![block(vec![ret(call(ident("recur"), vec![ident("n")]))]), handler, absent()],
    );
    let m = module(vec![fn_decl("f", &["n"], vec![t])]);
    assert!(analyze_recur(&m).is_empty());
    let out = lower_recur(&m).ok().unwrap();
    assert!(!holds_recur_call(&out));
}

#[test]
fn recur_in_a_default_parameter_is_reported() {
    // function f(n = recur(1)) { return n; }
    let param = node(
        Kind::Other,
        Payload::Handle(0, String::new()),
        vec![
            node(Kind::PIdent, Payload::Name("n".to_string()), vec![]),
            call(ident_at("recur", sp(13, 18)), vec![num(1.0, "1")]),
        ],
    );
    let f = node(
        Kind::SFnDecl,
        Payload::Func { is_async: false, is_generator: false, text: String::new() },
        vec![
            node(Kind::Ident, Payload::Name("f".to_string()), vec![]),
            node(Kind::Params, Payload::Empty, vec![param]),
            block(vec![ret(ident("n"))]),
        ],
    );
    assert_eq!(
        analyze_recur(&module(vec![f])),
        vec![RecurError::NotInTailPosition(sp(13, 18))]
    );
}

#[test]
fn recur_in_a_function_with_pattern_and_rest_parameters_lowers() {
    // function f({ a }, ...n) { return recur(a, n); }
    let pattern = node(Kind::Other, Payload::Handle(1, String::new()), vec![node(Kind::PIdent, Payload::Name("a".to_string()), vec![])]);
    let rest = node(Kind::PRest, Payload::Empty, vec![node(Kind::PIdent, Payload::Name("n".to_string()), vec![])]);
    let f = node(
        Kind::SFnDecl,
        Payload::Func { is_async: false, is_generator: false, text: String::new() },
        vec![
            node(Kind::Ident, Payload::Name("f".to_string()), vec![]),
            node(Kind::Params, Payload::Empty, vec![pattern, rest]),
            block(vec![ret(call(ident_at("recur", sp(21, 26)), vec![ident("a"), ident("n")]))]),
        ],
    );
    let m = module(vec![f]);
    assert!(analyze_recur(&m).is_empty());
    let out = lower_recur(&m).ok().unwrap();
    assert!(!holds_recur_call(&out));
    let step = &out.children[0].children[2].children[0].children[1].children[0];
    assert!(step.kind == Kind::SBlock);
    assert_eq!(step.children.len(), 5);
    // `({ a } = __next0);`: the pattern is reassigned as a whole.
    let destructure = &step.children[2].children[0];
    assert!(destructure.kind == Kind::EParen);
    let assign = &destructure.children[0];
    assert!(assign.kind == Kind::EAssign);
    assert!(assign.children[0].kind == Kind::Other);
    assert_eq!(name(&assign.children[1]), "__next0");
    // `n = __next1;`: the rest parameter is reassigned through its identifier.
    let a1 = &step.children[3].children[0];
    assert!(a1.kind == Kind::EAssign);
    assert_eq!(name(&a1.children[0]), "n");
    assert_eq!(name(&a1.children[1]), "__next1");
}

#[test]
fn recur_ending_a_final_if_returns_when_the_body_runs_to_its_end() {
    // function f(n) { if (n > 0) { recur(n - 1); } }
    let branch = block(vec![stmt(call(ident("recur"), vec![bin(BinaryOp::Sub, ident("n"), num(1.0, "1"))]))]);
    let f = fn_decl(
        "f",
        &["n"],
        vec![node(Kind::SIf, Payload::Empty, vec![bin(BinaryOp::Gt, ident("n"), num(0.0, "0")), branch, absent()])],
    );
    let out = lower_recur(&module(vec![f])).ok().unwrap();
    let w = &out.children[0].children[2].children[0];
    assert!(w.kind == Kind::SWhile);
    let inner = &w.children[1];
    assert_eq!(inner.children.len(), 2);
    assert!(inner.children[1].kind == Kind::SReturn);
    assert!(inner.children[1].children[0].kind == Kind::Absent);
}

#[test]
fn recur_in_try_with_a_throwing_catch_needs_no_trailing_return() {
    // function fact(n, acc) { try { if (n === 0) return acc; return recur(n - 1, acc * n); } catch (e) { throw e; } }
    let handler = node(
        Kind::Catch,
        Payload::Empty,
        vec![node(Kind::PIdent, Payload::Name("e".to_string()), vec![]), block(vec![node(Kind::SThrow, Payload::Empty, vec![ident("e")])])],
    );
    let t = node(
        Kind::STry,
        Payload::Empty,
        vec![
            block(vec![
                node(Kind::SIf, Payload::Empty, vec![bin(BinaryOp::EqEqEq, ident("n"), num(0.0, "0")), ret(ident("acc")), absent()]),
                ret(call(ident("recur"), vec![bin(BinaryOp::Sub, ident("n"), num(1.0, "1")), bin(BinaryOp::Mul, ident("acc"), ident("n"))])),
            ]),
            handler,
            absent(),
        ],
    );
    let m = module(vec![fn_decl("fact", &["n", "acc"], vec![t])]);
    assert!(analyze_recur(&m).is_empty());
    let out = lower_recur(&m).ok().unwrap();
    let w = &out.children[0].children[2].children[0];
    assert!(w.kind == Kind::SWhile);
    let inner = &w.children[1];
    assert_eq!(inner.children.len(), 1);
    assert!(inner.children[0].kind == Kind::STry);
    let step = &inner.children[0].children[0].children[1];
    assert!(step.kind == Kind::SBlock);
    let jump = &step.children[step.children.len() - 1];
    assert!(jump.kind == Kind::SContinue);
    assert!(matches!(jump.payload, Payload::Empty));
}

#[test]
fn recur_with_a_default_parameter_lowers() {
    // function fact(n, acc = 1) { if (n === 0) return acc; return recur(n - 1, acc * n); }
    let default_acc = node(Kind::PDefault, Payload::Empty, vec![node(Kind::PIdent, Payload::Name("acc".to_string()), vec![]), num(1.0, "1")]);
    let f = node(
        Kind::SFnDecl,
        Payload::Func { is_async: false, is_generator: false, text: String::new() },
        vec![
            node(Kind::Ident, Payload::Name("fact".to_string()), vec![]),
            node(Kind::Params, Payload::Empty, vec![node(Kind::PIdent, Payload::Name("n".to_string()), vec![]), default_acc]),
            block(vec![
                node(Kind::SIf, Payload::Empty, vec![bin(BinaryOp::EqEqEq, ident("n"), num(0.0, "0")), ret(ident("acc")), absent()]),
                ret(call(ident("recur"), vec![bin(BinaryOp::Sub, ident("n"), num(1.0, "1")), bin(BinaryOp::Mul, ident("acc"), ident("n"))])),
            ]),
        ],
    );
    let m = module(vec![f]);
    assert!(analyze_recur(&m).is_empty());
    let out = lower_recur(&m).ok().unwrap();
    let step = &out.children[0].children[2].children[0].children[1].children[1];
    assert!(step.kind == Kind::SBlock);
    assert_eq!(name(&step.children[3].children[0].children[0]), "acc");
    assert_eq!(name(&step.children[3].children[0].children[1]), "__next1");
}

#[test]
fn recur_of_a_function_nested_in_a_try_with_finally_is_accepted() {
    // try { const g = function (n) { return recur(n); }; } finally {}
    let g = node(
        Kind::EFn,
        Payload::Func { is_async: false, is_generator: false, text: String::new() },
        vec![
            absent(),
            node(Kind::Params, Payload::Empty, vec![node(Kind::PIdent, Payload::Name("n".to_string()), vec![])]),
            block(vec![ret(call(ident("recur"), vec![ident("n")]))]),
        ],
    );
    let t = node(Kind::STry, Payload::Empty, vec![block(vec![stmt(g)]), absent(), block(vec![])]);
    let m = module(vec![t]);
    assert!(analyze_recur(&m).is_empty());
    assert!(lower_recur(&m).is_ok());
}

#[test]
fn parameters_and_hoisted_declarations_bind_runtime_names() {
    // function f(map) { return map(1); }
    let f = fn_decl("f", &["map"], vec![ret(call(ident("map"), vec![num(1.0, "1")]))]);
    assert!(missing_runtime_names(&module(vec![f])).is_empty());
    // map(1); function map(v) { return v; }
    let g = fn_decl("map", &["v"], vec![ret(ident("v"))]);
    let m = module(vec![stmt(call(ident("map"), vec![num(1.0, "1")])), g]);
    assert!(missing_runtime_names(&m).is_empty());
    // function f(xs) { return filter(xs); } function g(filter) { return filter; }
    let f2 = fn_decl("f", &["xs"], vec![ret(call(ident("filter"), vec![ident("xs")]))]);
    let g2 = fn_decl("g", &["filter"], vec![ret(ident("filter"))]);
    assert_eq!(missing_runtime_names(&module(vec![f2, g2])), vec!["filter".to_string()]);
}

#[test]
fn module_without_runtime_names_is_unchanged_and_keeps_its_imports_in_order() {
    let imp = |src: &str, local: &str| {
        node(
            Kind::Import,
            Payload::Import(ImportDecl {
                handle: 7,
                specifiers: vec![ImportSpec { kind: ImportKind::Named, local: local.to_string(), imported: None }],
                src: src.to_string(),
                src_raw: None,
            }),
            vec![],
        )
    };
    let m = module(vec![imp("./a.js", "a"), imp("./b.js", "b"), stmt(call(ident("a"), vec![ident("b")]))]);
    let out = inject_runtime_imports(m);
    assert_eq!(out.children.len(), 3);
    let srcs: Vec<String> = out.children[..2]
        .iter()
        .map(|n| match &n.payload {
            Payload::Import(d) => d.src.clone(),
            _ => String::new(),
        })
        .collect();
    assert_eq!(srcs, vec!["./a.js".to_string(), "./b.js".to_string()]);

    let m2 = module(vec![imp("./a.js", "a"), imp("./b.js", "b"), stmt(call(ident("first"), vec![ident("a")]))]);
    let out2 = inject_runtime_imports(m2);
    assert_eq!(out2.children.len(), 4);
    let srcs2: Vec<String> = out2.children
        .iter()
        .map(|n| match &n.payload {
            Payload::Import(d) => d.src.clone(),
            _ => String::new(),
        })
        .collect();
    assert_eq!(srcs2, vec!["ljsp".to_string(), "./a.js".to_string(), "./b.js".to_string(), String::new()]);
}

#[test]
fn runtime_name_only_as_a_property_is_not_imported() {
    // `xs.map(f);`: `map` is a property name, no identifier.
    let member = node(
        Kind::EMember,
        Payload::Empty,
        vec![ident("xs"), node(Kind::PropName, Payload::Name("map".to_string()), vec![])],
    );
    let m = module(vec![stmt(call(member, vec![ident("f")]))]);
    assert!(missing_runtime_names(&m).is_empty());
    let out = inject_runtime_imports(m);
    assert_eq!(out.children.len(), 1);
    assert!(out.children[0].kind == Kind::SExpr);
}
