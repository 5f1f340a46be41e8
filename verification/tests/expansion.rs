use ljsp_macro_compiler_rs::ast::{ImportDecl, ImportKind, ImportSpec, JsNumber, Kind, Node, Payload, Span};
use ljsp_macro_compiler_rs::expander::{
    expand_macros, expand_pass, Expansion, Flow, MacroImportFinder, Reply, Request, Scope, MAX_EXPANSION_DEPTH,
};
use ljsp_macro_compiler_rs::json::{JsonValue, Member};

fn sp(lo: u32, hi: u32) -> Span {
    Span { lo, hi }
}

fn node(kind: Kind, payload: Payload, children: Vec<Node>) -> Node {
    Node { kind, span: sp(0, 0), payload, children }
}

fn ident(name: &str) -> Node {
    node(Kind::EIdent, Payload::Name(name.to_string()), vec![])
}

fn pident(name: &str) -> Node {
    node(Kind::PIdent, Payload::Name(name.to_string()), vec![])
}

fn num(v: f64, text: &str) -> Node {
    node(Kind::ENum, Payload::Number(JsNumber { bits: v.to_bits(), text: text.to_string() }, None), vec![])
}

fn call(callee: Node, args: Vec<Node>) -> Node {
    let args = args.into_iter().map(|a| node(Kind::Arg, Payload::Empty, vec![a])).collect();
    node(Kind::ECall, Payload::Empty, vec![callee, node(Kind::Args, Payload::Empty, args)])
}

fn member(obj: &str, prop: &str) -> Node {
    node(
        Kind::EMember,
        Payload::Empty,
        vec![ident(obj), node(Kind::PropName, Payload::Name(prop.to_string()), vec![])],
    )
}

fn stmt(e: Node) -> Node {
    Node { kind: Kind::SExpr, span: sp(10, 20), payload: Payload::Empty, children: vec![e] }
}

fn ret(e: Node) -> Node {
    node(Kind::SReturn, Payload::Empty, vec![e])
}

fn block(stmts: Vec<Node>) -> Node {
    node(Kind::SBlock, Payload::Empty, stmts)
}

fn fn_decl(name: &str, params: &[&str], body: Vec<Node>) -> Node {
    node(
        Kind::SFnDecl,
        Payload::Func { is_async: false, is_generator: false, text: String::new() },
        vec![
            node(Kind::Ident, Payload::Name(name.to_string()), vec![]),
            node(Kind::Params, Payload::Empty, params.iter().map(|p| pident(p)).collect()),
            block(body),
        ],
    )
}

fn import(specs: Vec<(ImportKind, &str, Option<&str>)>, src: &str) -> Node {
    let specifiers = specs
        .into_iter()
        .map(|(kind, local, imported)| ImportSpec {
            kind,
            local: local.to_string(),
            imported: imported.map(|s| s.to_string()),
        })
        .collect();
    node(
        Kind::Import,
        Payload::Import(ImportDecl { handle: 1, specifiers, src: src.to_string(), src_raw: None }),
        vec![],
    )
}

fn module(items: Vec<Node>) -> Node {
    node(Kind::Module, Payload::Empty, items)
}

fn jstr(s: &str) -> JsonValue {
    JsonValue::Str(s.to_string())
}

fn obj(members: Vec<(&str, JsonValue)>) -> JsonValue {
    JsonValue::Object(members.into_iter().map(|(k, v)| Member { key: k.to_string(), value: v }).collect())
}

fn jident(name: &str) -> JsonValue {
    obj(vec![("type", jstr("Identifier")), ("name", jstr(name))])
}

fn name(n: &Node) -> &str {
    match &n.payload {
        Payload::Name(s) => s.as_str(),
        _ => "",
    }
}

fn jfield<'a>(v: &'a JsonValue, key: &str) -> Option<&'a JsonValue> {
    match v {
        JsonValue::Object(ms) => ms.iter().find(|m| m.key == key).map(|m| &m.value),
        _ => None,
    }
}

fn jtext(v: &JsonValue) -> &str {
    match v {
        JsonValue::Str(s) => s.as_str(),
        _ => "",
    }
}

fn expect_call(r: Expansion) -> (String, String, Vec<JsonValue>) {
    match r {
        Expansion::Need(Request::Call { path, name, args }) => (path, name, args),
        _ => panic!("expected a macro call request"),
    }
}

fn expect_done(r: Expansion) -> Node {
    match r {
        Expansion::Done(m) => m,
        _ => panic!("expected a finished expansion"),
    }
}

fn control_import() -> Node {
    import(vec![(ImportKind::Named, "unless", None)], "./control.macro.js")
}

#[test]
fn finder_collects_named_and_namespace_bindings() {
    let m = module(vec![
        import(
            vec![
                (ImportKind::Named, "unless", None),
                (ImportKind::Named, "w", Some("whenLet")),
                (ImportKind::Default, "d", None),
            ],
            "./control.macro.js",
        ),
        import(vec![(ImportKind::Namespace, "util", None)], "./util.macro.js"),
        import(vec![(ImportKind::Named, "map", None)], "ljsp"),
    ]);
    let f = MacroImportFinder::find(&m);
    assert_eq!(f.macro_imports.len(), 2);
    assert_eq!(f.macro_imports[0].local, "unless");
    assert_eq!(f.macro_imports[0].name, "unless");
    assert_eq!(f.macro_imports[1].local, "w");
    assert_eq!(f.macro_imports[1].name, "whenLet");
    assert_eq!(f.macro_imports[1].path, "./control.macro.js");
    assert_eq!(f.namespace_imports.len(), 1);
    assert_eq!(f.namespace_imports[0].local, "util");
    assert_eq!(f.lookup_macro(&"w".to_string()), Some(("./control.macro.js".to_string(), "whenLet".to_string())));
    assert_eq!(f.lookup_macro(&"map".to_string()), None);
    assert_eq!(f.lookup_namespace(&"util".to_string()), Some("./util.macro.js".to_string()));
    assert_eq!(f.module_paths(), vec!["./control.macro.js".to_string(), "./util.macro.js".to_string()]);
}

#[test]
fn later_import_of_a_name_wins() {
    let m = module(vec![
        import(vec![(ImportKind::Named, "m", None)], "./a.macro.js"),
        import(vec![(ImportKind::Named, "m", None)], "./b.macro.js"),
    ]);
    let f = MacroImportFinder::find(&m);
    assert_eq!(f.lookup_macro(&"m".to_string()), Some(("./b.macro.js".to_string(), "m".to_string())));
    assert_eq!(f.module_paths(), vec!["./a.macro.js".to_string(), "./b.macro.js".to_string()]);
}

#[test]
fn module_paths_are_listed_once() {
    let m = module(vec![
        import(vec![(ImportKind::Named, "a", None), (ImportKind::Named, "b", None)], "./x.macro.js"),
        import(vec![(ImportKind::Namespace, "x", None)], "./x.macro.js"),
    ]);
    let f = MacroImportFinder::find(&m);
    assert_eq!(f.module_paths(), vec!["./x.macro.js".to_string()]);
}

#[test]
fn scope_binds_in_innermost_frame() {
    let mut s = Scope::new();
    s.add("top".to_string());
    assert!(!s.has(&"top".to_string()));
    s.enter();
    s.add("a".to_string());
    s.enter();
    s.add("b".to_string());
    assert!(s.has(&"a".to_string()));
    assert!(s.has(&"b".to_string()));
    s.leave();
    assert!(s.has(&"a".to_string()));
    assert!(!s.has(&"b".to_string()));
    s.leave();
    assert!(!s.has(&"a".to_string()));
}

#[test]
fn statement_macro_is_expanded_and_import_dropped() {
    let m = module(vec![control_import(), stmt(call(ident("unless"), vec![ident("x")]))]);
    let (path, mname, args) = expect_call(expand_macros(&m, &vec![], 64));
    assert_eq!(path, "./control.macro.js");
    assert_eq!(mname, "unless");
    assert_eq!(args.len(), 1);
    assert_eq!(jtext(jfield(&args[0], "type").unwrap()), "Identifier");
    assert_eq!(jtext(jfield(&args[0], "name").unwrap()), "x");

    let result = obj(vec![("type", jstr("ExpressionStatement")), ("expression", jident("y"))]);
    let out = expect_done(expand_macros(&m, &vec![Reply::Called(Some(result))], 64));
    assert_eq!(out.children.len(), 1);
    let s = &out.children[0];
    assert!(s.kind == Kind::SExpr);
    assert_eq!(s.span, sp(10, 20));
    assert!(s.children[0].kind == Kind::EIdent);
    assert_eq!(name(&s.children[0]), "y");
}

#[test]
fn parameter_shadows_macro() {
    let f = fn_decl("f", &["unless"], vec![ret(call(ident("unless"), vec![ident("x")]))]);
    let m = module(vec![control_import(), f]);
    let out = expect_done(expand_macros(&m, &vec![], 64));
    assert_eq!(out.children.len(), 1);
    let body = &out.children[0].children[2];
    let c = &body.children[0].children[0];
    assert!(c.kind == Kind::ECall);
    assert_eq!(name(&c.children[0]), "unless");
}

#[test]
fn unshadowed_call_in_function_is_a_macro_call() {
    let f = fn_decl("f", &["y"], vec![ret(call(ident("unless"), vec![ident("y")]))]);
    let m = module(vec![control_import(), f]);
    let (_, mname, _) = expect_call(expand_macros(&m, &vec![], 64));
    assert_eq!(mname, "unless");
    let out = expect_done(expand_macros(&m, &vec![Reply::Called(Some(jident("z")))], 64));
    let c = &out.children[0].children[2].children[0].children[0];
    assert!(c.kind == Kind::EIdent);
    assert_eq!(name(c), "z");
}

#[test]
fn qualified_macro_is_not_shadowed() {
    let f = fn_decl("f", &["c"], vec![ret(call(member("c", "m"), vec![num(1.0, "1")]))]);
    let m = module(vec![import(vec![(ImportKind::Namespace, "c", None)], "./c.macro.js"), f]);
    let (path, mname, args) = expect_call(expand_macros(&m, &vec![], 64));
    assert_eq!(path, "./c.macro.js");
    assert_eq!(mname, "m");
    assert_eq!(jtext(jfield(&args[0], "type").unwrap()), "Literal");
    assert_eq!(jtext(jfield(&args[0], "raw").unwrap()), "1");
}

#[test]
fn module_without_macros_is_unchanged_and_asks_nothing() {
    let m = module(vec![
        import(vec![(ImportKind::Named, "map", None)], "ljsp"),
        stmt(call(ident("map"), vec![ident("xs")])),
    ]);
    let out = expect_done(expand_macros(&m, &vec![], 64));
    assert_eq!(out.children.len(), 2);
    assert!(out.children[0].kind == Kind::Import);
    assert_eq!(name(&out.children[1].children[0].children[0]), "map");
}

fn call_at(callee: Node, args: Vec<Node>, span: Span) -> Node {
    let mut c = call(callee, args);
    c.span = span;
    c
}

#[test]
fn failed_statement_call_fails_at_the_call() {
    let m = module(vec![control_import(), stmt(call_at(ident("unless"), vec![], sp(3, 9)))]);
    assert!(matches!(expand_macros(&m, &vec![Reply::Called(None)], 64), Expansion::Failed(s) if s == sp(3, 9)));
}

#[test]
fn failed_expression_call_fails_at_the_call() {
    let inner = call_at(ident("unless"), vec![ident("a")], sp(4, 14));
    let m = module(vec![control_import(), stmt(call(ident("log"), vec![inner]))]);
    let (_, mname, _) = expect_call(expand_macros(&m, &vec![], 64));
    assert_eq!(mname, "unless");
    assert!(matches!(expand_macros(&m, &vec![Reply::Called(None)], 64), Expansion::Failed(s) if s == sp(4, 14)));
}

#[test]
fn result_that_is_no_expression_is_invalid() {
    // `log(unless(a))` with `unless` returning an `if` statement.
    let inner = call_at(ident("unless"), vec![ident("a")], sp(4, 14));
    let m = module(vec![control_import(), stmt(call(ident("log"), vec![inner]))]);
    let result = obj(vec![
        ("type", jstr("IfStatement")),
        ("test", jident("a")),
        ("consequent", obj(vec![("type", jstr("BlockStatement")), ("body", JsonValue::Array(vec![]))])),
        ("alternate", JsonValue::Null),
    ]);
    assert!(matches!(
        expand_macros(&m, &vec![Reply::Called(Some(result))], 64),
        Expansion::Invalid(s) if s == sp(4, 14)
    ));
}

#[test]
fn expression_result_of_a_statement_call_is_expanded_as_an_expression() {
    // The statement `unless(a);` whose macro yields the expression `done`:
    // the call is expanded again in expression position.
    let m = module(vec![control_import(), stmt(call(ident("unless"), vec![ident("a")]))]);
    let (_, mname, _) = expect_call(expand_macros(&m, &vec![Reply::Called(Some(jident("done")))], 64));
    assert_eq!(mname, "unless");
    let replies = vec![Reply::Called(Some(jident("done"))), Reply::Called(Some(jident("done")))];
    let out = expect_done(expand_macros(&m, &replies, 64));
    assert_eq!(out.children.len(), 1);
    assert!(out.children[0].kind == Kind::SExpr);
    assert_eq!(name(&out.children[0].children[0]), "done");
}

#[test]
fn template_with_a_value_of_the_wrong_shape_is_invalid() {
    let m = module(vec![control_import(), stmt(call_at(ident("unless"), vec![ident("a")], sp(2, 12)))]);
    let template = obj(vec![
        ("type", jstr("TemplateResult")),
        ("kind", jstr("statement")),
        ("code", jstr("f(__MACRO_INTERP_0__)")),
        ("values", JsonValue::Array(vec![obj(vec![("type", jstr("NoSuchNode"))])])),
    ]);
    let parsed = module(vec![stmt(call(ident("f"), vec![ident("__MACRO_INTERP_0__")]))]);
    let replies = vec![Reply::Called(Some(template)), Reply::Parsed(Some(parsed))];
    assert!(matches!(expand_macros(&m, &replies, 64), Expansion::Invalid(s) if s == sp(2, 12)));
}

#[test]
fn template_result_asks_for_a_parse_then_resolves() {
    let m = module(vec![control_import(), stmt(call(ident("unless"), vec![ident("a")]))]);
    let template = obj(vec![
        ("type", jstr("TemplateResult")),
        ("kind", jstr("expression")),
        ("code", jstr("__MACRO_INTERP_0__")),
        ("values", JsonValue::Array(vec![jident("a")])),
    ]);
    let r = expand_macros(&m, &vec![Reply::Called(Some(template))], 64);
    match r {
        Expansion::Need(Request::Parse { source }) => assert_eq!(source, "(__MACRO_INTERP_0__)"),
        _ => panic!("expected a parse request"),
    }
    let tpl = || {
        obj(vec![
            ("type", jstr("TemplateResult")),
            ("kind", jstr("expression")),
            ("code", jstr("__MACRO_INTERP_0__")),
            ("values", JsonValue::Array(vec![jident("a")])),
        ])
    };
    let parsed = || module(vec![stmt(node(Kind::EParen, Payload::Empty, vec![ident("__MACRO_INTERP_0__")]))]);
    // As a statement, the expression `(a)` stands for nothing: the call is
    // then expanded as an expression, and the macro runs a second time.
    let replies = vec![Reply::Called(Some(tpl())), Reply::Parsed(Some(parsed()))];
    let (_, mname, _) = expect_call(expand_macros(&m, &replies, 64));
    assert_eq!(mname, "unless");
    let replies = vec![
        Reply::Called(Some(tpl())),
        Reply::Parsed(Some(parsed())),
        Reply::Called(Some(tpl())),
        Reply::Parsed(Some(parsed())),
    ];
    let out = expect_done(expand_macros(&m, &replies, 64));
    assert_eq!(out.children.len(), 1);
    let e = &out.children[0].children[0];
    assert!(e.kind == Kind::EParen);
    assert!(e.children[0].kind == Kind::EIdent);
    assert_eq!(name(&e.children[0]), "a");
}

#[test]
fn reply_of_the_wrong_kind_is_stray() {
    let m = module(vec![control_import(), stmt(call(ident("unless"), vec![]))]);
    assert!(matches!(expand_macros(&m, &vec![Reply::Parsed(None)], 64), Expansion::Stray));
}

#[test]
fn malformed_arrow_parameter_is_a_fault() {
    let m = module(vec![control_import(), stmt(call(ident("unless"), vec![]))]);
    let bad = obj(vec![
        ("type", jstr("ArrowFunctionExpression")),
        ("params", JsonValue::Array(vec![obj(vec![("type", jstr("Identifier"))])])),
        ("body", jident("x")),
        ("expression", JsonValue::Bool(true)),
    ]);
    let result = obj(vec![("type", jstr("ExpressionStatement")), ("expression", bad)]);
    assert!(matches!(expand_macros(&m, &vec![Reply::Called(Some(result))], 64), Expansion::Fault));
}

#[test]
fn self_reproducing_macro_runs_out_of_depth() {
    let m = module(vec![control_import(), stmt(call(ident("unless"), vec![]))]);
    let again = || {
        obj(vec![
            ("type", jstr("CallExpression")),
            ("callee", jident("unless")),
            ("arguments", JsonValue::Array(vec![])),
        ])
    };
    let replies = vec![Reply::Called(Some(again())), Reply::Called(Some(again())), Reply::Called(Some(again()))];
    // The stack: the statement call, then the call its replacement holds.
    assert!(matches!(expand_macros(&m, &replies, 1), Expansion::Deep(s) if s == vec![sp(0, 0), sp(10, 20)]));
    assert!(matches!(expand_macros(&m, &replies, 5), Expansion::Need(Request::Call { .. })));
}

#[test]
fn expansion_depth_limit_is_256() {
    assert_eq!(MAX_EXPANSION_DEPTH, 256);
}

#[test]
fn outer_call_goes_to_the_sandbox_first() {
    let inner = call(ident("unless"), vec![ident("x")]);
    let m = module(vec![control_import(), stmt(call(ident("unless"), vec![inner]))]);
    let (_, _, args) = expect_call(expand_macros(&m, &vec![], 64));
    assert_eq!(args.len(), 1);
    assert_eq!(jtext(jfield(&args[0], "type").unwrap()), "CallExpression");
}

#[test]
fn replies_beyond_those_asked_for_change_nothing() {
    let m = module(vec![control_import(), stmt(call(ident("unless"), vec![]))]);
    let answer = || obj(vec![("type", jstr("ExpressionStatement")), ("expression", jident("done"))]);
    let exact = expect_done(expand_macros(&m, &vec![Reply::Called(Some(answer()))], 64));
    let more = vec![Reply::Called(Some(answer())), Reply::Called(None), Reply::Parsed(None)];
    let longer = expect_done(expand_macros(&m, &more, 64));
    assert_eq!(exact.children.len(), longer.children.len());
    assert_eq!(name(&exact.children[0].children[0]), "done");
    assert_eq!(name(&longer.children[0].children[0]), "done");
}

fn var_decl(kind: ljsp_macro_compiler_rs::ast::VarKind, name: &str, init: Node) -> Node {
    node(
        Kind::SVar,
        Payload::Var(kind),
        vec![node(Kind::Declarator, Payload::Empty, vec![pident(name), init])],
    )
}

/// `quickRef(count, 0);` with `quickRef` returning
/// ``ctx.syntax.statement`const ${name} = ref(${initialValue})` `` becomes
/// `const count = ref(0);`.
#[test]
fn quick_ref_statement_template_declares_the_name() {
    let m = module(vec![
        import(vec![(ImportKind::Named, "quickRef", None)], "./vue-utils.macro.js"),
        stmt(call(ident("quickRef"), vec![ident("count"), num(0.0, "0")])),
    ]);
    let (path, mname, args) = expect_call(expand_macros(&m, &vec![], 64));
    assert_eq!(path, "./vue-utils.macro.js");
    assert_eq!(mname, "quickRef");
    assert_eq!(args.len(), 2);
    let template = |args: &Vec<JsonValue>| {
        obj(vec![
            ("type", jstr("TemplateResult")),
            ("kind", jstr("statement")),
            ("code", jstr("const __MACRO_INTERP_0__ = ref(__MACRO_INTERP_1__)")),
            ("values", JsonValue::Array(args.iter().map(|a| copy(a)).collect())),
        ])
    };
    let r = expand_macros(&m, &vec![Reply::Called(Some(template(&args)))], 64);
    match r {
        Expansion::Need(Request::Parse { source }) => {
            assert_eq!(source, "const __MACRO_INTERP_0__ = ref(__MACRO_INTERP_1__)")
        },
        _ => panic!("expected a parse request"),
    }
    let parsed = module(vec![var_decl(
        ljsp_macro_compiler_rs::ast::VarKind::Const,
        "__MACRO_INTERP_0__",
        call(ident("ref"), vec![ident("__MACRO_INTERP_1__")]),
    )]);
    let replies = vec![Reply::Called(Some(template(&args))), Reply::Parsed(Some(parsed))];
    let out = expect_done(expand_macros(&m, &replies, 64));
    assert_eq!(out.children.len(), 1);
    let d = &out.children[0];
    assert!(d.kind == Kind::SVar);
    assert!(matches!(d.payload, Payload::Var(ljsp_macro_compiler_rs::ast::VarKind::Const)));
    assert_eq!(d.span, sp(10, 20));
    let decl = &d.children[0];
    assert_eq!(name(&decl.children[0]), "count");
    let init = &decl.children[1];
    assert!(init.kind == Kind::ECall);
    assert_eq!(name(&init.children[0]), "ref");
    let arg = &init.children[1].children[0].children[0];
    assert!(arg.kind == Kind::ENum);
}

fn copy(v: &JsonValue) -> JsonValue {
    match v {
        JsonValue::Null => JsonValue::Null,
        JsonValue::Bool(b) => JsonValue::Bool(*b),
        JsonValue::Number(n) => JsonValue::Number(JsNumber { bits: n.bits, text: n.text.clone() }),
        JsonValue::Str(s) => JsonValue::Str(s.clone()),
        JsonValue::Array(a) => JsonValue::Array(a.iter().map(copy).collect()),
        JsonValue::Object(ms) => {
            JsonValue::Object(ms.iter().map(|m| Member { key: m.key.clone(), value: copy(&m.value) }).collect())
        },
    }
}

/// `unless(user.isAdmin, () => { console.log("Access Denied"); });` with
/// `unless` returning ``ctx.syntax.statement`if (!(${condition})) { (${body})(); }` ``
/// becomes `if (!(user.isAdmin)) { (() => { .. })(); }`.
#[test]
fn unless_statement_template_becomes_an_if() {
    let body = node(
        Kind::EArrow,
        Payload::Func { is_async: false, is_generator: false, text: String::new() },
        vec![
            node(Kind::Params, Payload::Empty, vec![]),
            block(vec![stmt(call(
                member("console", "log"),
                vec![node(Kind::EStr, Payload::Str("Access Denied".to_string(), None), vec![])],
            ))]),
        ],
    );
    let m = module(vec![control_import(), stmt(call(ident("unless"), vec![member("user", "isAdmin"), body]))]);
    let (_, _, args) = expect_call(expand_macros(&m, &vec![], 64));
    assert_eq!(jtext(jfield(&args[0], "type").unwrap()), "MemberExpression");
    assert_eq!(jtext(jfield(&args[1], "type").unwrap()), "ArrowFunctionExpression");
    let template = || {
        obj(vec![
            ("type", jstr("TemplateResult")),
            ("kind", jstr("statement")),
            ("code", jstr("if (!(__MACRO_INTERP_0__)) { (__MACRO_INTERP_1__)(); }")),
            ("values", JsonValue::Array(args.iter().map(copy).collect())),
        ])
    };
    let not = node(
        Kind::EUnary,
        Payload::Unary(ljsp_macro_compiler_rs::ast::UnaryOp::Bang),
        vec![node(Kind::EParen, Payload::Empty, vec![ident("__MACRO_INTERP_0__")])],
    );
    let invoke = stmt(call(node(Kind::EParen, Payload::Empty, vec![ident("__MACRO_INTERP_1__")]), vec![]));
    let parsed = module(vec![node(
        Kind::SIf,
        Payload::Empty,
        vec![not, block(vec![invoke]), node(Kind::Absent, Payload::Empty, vec![])],
    )]);
    let replies = vec![Reply::Called(Some(template())), Reply::Parsed(Some(parsed))];
    let out = expect_done(expand_macros(&m, &replies, 64));
    assert_eq!(out.children.len(), 1);
    let s = &out.children[0];
    assert!(s.kind == Kind::SIf);
    let test = &s.children[0];
    assert!(test.kind == Kind::EUnary);
    let cond = &test.children[0].children[0];
    assert!(cond.kind == Kind::EMember);
    assert_eq!(name(&cond.children[0]), "user");
    let inner = &s.children[1].children[0].children[0];
    assert!(inner.kind == Kind::ECall);
    let callee = &inner.children[0].children[0];
    assert!(callee.kind == Kind::EArrow);
    assert!(s.children[2].kind == Kind::Absent);
}

/// `const apiKey = getEnv("API_KEY");` with `getEnv` answering
/// `ctx.literal("secret-key-from-env")` becomes `const apiKey = "secret-key-from-env";`.
#[test]
fn get_env_literal_replaces_the_call() {
    let key = node(Kind::EStr, Payload::Str("API_KEY".to_string(), Some("\"API_KEY\"".to_string())), vec![]);
    let m = module(vec![
        import(vec![(ImportKind::Named, "getEnv", None)], "./config.macro.js"),
        var_decl(ljsp_macro_compiler_rs::ast::VarKind::Const, "apiKey", call(ident("getEnv"), vec![key])),
    ]);
    let (path, mname, args) = expect_call(expand_macros(&m, &vec![], 64));
    assert_eq!(path, "./config.macro.js");
    assert_eq!(mname, "getEnv");
    assert_eq!(jtext(jfield(&args[0], "value").unwrap()), "API_KEY");
    let literal = obj(vec![
        ("type", jstr("Literal")),
        ("value", jstr("secret-key-from-env")),
        ("raw", jstr("secret-key-from-env")),
    ]);
    let out = expect_done(expand_macros(&m, &vec![Reply::Called(Some(literal))], 64));
    assert_eq!(out.children.len(), 1);
    let init = &out.children[0].children[0].children[1];
    assert!(init.kind == Kind::EStr);
    assert!(matches!(&init.payload, Payload::Str(s, _) if s == "secret-key-from-env"));
}

#[test]
fn expansion_ends_with_the_pass_that_expands_nothing() {
    // A replacement is expanded in the pass that makes it, so the pass after
    // it finds nothing to expand and asks for nothing.
    let m = module(vec![control_import(), stmt(call(ident("unless"), vec![]))]);
    let again = obj(vec![
        ("type", jstr("ExpressionStatement")),
        (
            "expression",
            obj(vec![
                ("type", jstr("CallExpression")),
                ("callee", jident("log")),
                ("arguments", JsonValue::Array(vec![])),
            ]),
        ),
    ]);
    let out = expect_done(expand_macros(&m, &vec![Reply::Called(Some(again))], 64));
    assert_eq!(out.children.len(), 1);
    assert_eq!(name(&out.children[0].children[0].children[0]), "log");
}

#[test]
fn local_variable_shadows_macro() {
    let f = fn_decl(
        "f",
        &["y"],
        vec![
            var_decl(ljsp_macro_compiler_rs::ast::VarKind::Const, "unless", ident("y")),
            ret(call(ident("unless"), vec![ident("x")])),
        ],
    );
    let m = module(vec![control_import(), f]);
    let out = expect_done(expand_macros(&m, &vec![], 64));
    let c = &out.children[0].children[2].children[1].children[0];
    assert!(c.kind == Kind::ECall);
    assert_eq!(name(&c.children[0]), "unless");
}

#[test]
fn call_before_the_local_declaration_is_still_a_macro_call() {
    let f = fn_decl(
        "f",
        &["y"],
        vec![
            stmt(call(ident("unless"), vec![ident("y")])),
            var_decl(ljsp_macro_compiler_rs::ast::VarKind::Let, "unless", ident("y")),
        ],
    );
    let m = module(vec![control_import(), f]);
    let (_, mname, _) = expect_call(expand_macros(&m, &vec![], 64));
    assert_eq!(mname, "unless");
}

fn same_tree(a: &Node, b: &Node) -> bool {
    a.kind == b.kind
        && name(a) == name(b)
        && a.children.len() == b.children.len()
        && a.children.iter().zip(b.children.iter()).all(|(x, y)| same_tree(x, y))
}

#[test]
fn a_further_pass_over_the_result_changes_nothing() {
    let m = module(vec![
        control_import(),
        stmt(call(ident("unless"), vec![ident("a")])),
        stmt(call(ident("log"), vec![call(ident("unless"), vec![ident("b")])])),
    ]);
    let replies = vec![
        Reply::Called(Some(obj(vec![("type", jstr("ExpressionStatement")), ("expression", jident("first"))]))),
        Reply::Called(Some(jident("second"))),
    ];
    let out = expect_done(expand_macros(&m, &replies, 64));
    assert_eq!(out.children.len(), 2);
    let finder = MacroImportFinder::find(&m);
    let (r, st) = expand_pass(&finder, &replies, &out, 64, 1);
    match r {
        Flow::Ready(again) => assert!(same_tree(&again, &out)),
        _ => panic!("expected a finished pass"),
    }
    assert!(!st.expanded_this_pass);
    assert_eq!(st.pos, 1);
}

#[test]
fn expansion_without_fixed_point_is_unsettled() {
    // `unless()` yields `when()()`; `when()` yields the identifier `unless`, so
    // each pass leaves a new call `unless()` behind, made after its place was passed.
    let m = module(vec![
        import(vec![(ImportKind::Named, "unless", None), (ImportKind::Named, "when", None)], "./control.macro.js"),
        stmt(call(ident("unless"), vec![])),
    ]);
    let call_json = |callee: JsonValue| {
        obj(vec![("type", jstr("CallExpression")), ("callee", callee), ("arguments", JsonValue::Array(vec![]))])
    };
    let unless_result = || {
        obj(vec![
            ("type", jstr("ExpressionStatement")),
            ("expression", call_json(call_json(jident("when")))),
        ])
    };
    let mut replies = Vec::new();
    for _ in 0..MAX_EXPANSION_DEPTH {
        replies.push(Reply::Called(Some(unless_result())));
        replies.push(Reply::Called(Some(jident("unless"))));
    }
    assert!(matches!(expand_macros(&m, &replies, 64), Expansion::Unsettled));
    let mut fewer = Vec::new();
    for _ in 0..3 {
        fewer.push(Reply::Called(Some(unless_result())));
        fewer.push(Reply::Called(Some(jident("unless"))));
    }
    let (_, mname, _) = expect_call(expand_macros(&m, &fewer, 64));
    assert_eq!(mname, "unless");
}

#[test]
fn statement_macro_inside_a_function_body_is_expanded() {
    // `function f(a) { unless(a); }` with `unless` returning `if (a) { }`.
    let f = fn_decl("f", &["a"], vec![stmt(call(ident("unless"), vec![ident("a")]))]);
    let m = module(vec![control_import(), f]);
    let (_, mname, _) = expect_call(expand_macros(&m, &vec![], 64));
    assert_eq!(mname, "unless");
    let result = obj(vec![
        ("type", jstr("IfStatement")),
        ("test", jident("a")),
        ("consequent", obj(vec![("type", jstr("BlockStatement")), ("body", JsonValue::Array(vec![]))])),
        ("alternate", JsonValue::Null),
    ]);
    let out = expect_done(expand_macros(&m, &vec![Reply::Called(Some(result))], 64));
    assert_eq!(out.children.len(), 1);
    let body = &out.children[0].children[2];
    assert_eq!(body.children.len(), 1);
    assert!(body.children[0].kind == Kind::SIf);
    assert_eq!(body.children[0].span, sp(10, 20));
    assert_eq!(name(&body.children[0].children[0]), "a");
}

#[test]
fn other_imports_keep_their_order_through_expansion() {
    let m = module(vec![
        import(vec![(ImportKind::Named, "a", None)], "./a.js"),
        control_import(),
        import(vec![(ImportKind::Default, "b", None)], "./b.js"),
        stmt(call(ident("unless"), vec![ident("x")])),
    ]);
    let result = obj(vec![("type", jstr("ExpressionStatement")), ("expression", jident("y"))]);
    let out = expect_done(expand_macros(&m, &vec![Reply::Called(Some(result))], 64));
    assert_eq!(out.children.len(), 3);
    let srcs: Vec<String> = out.children
        .iter()
        .filter_map(|n| match &n.payload {
            Payload::Import(d) => Some(d.src.clone()),
            _ => None,
        })
        .collect();
    assert_eq!(srcs, vec!["./a.js".to_string(), "./b.js".to_string()]);
    assert!(out.children[2].kind == Kind::SExpr);
}
