use ljsp_macro_compiler_rs::ast::{BinaryOp, JsNumber, Kind, Node, Payload, Span};
use ljsp_macro_compiler_rs::json::{JsonValue, Member};
use ljsp_macro_compiler_rs::marshal::{
    expr_to_json, json_conversion_crashes, json_to_expr, json_to_stmt, stmt_to_json, Conv, FromJson,
};
use ljsp_macro_compiler_rs::sandbox::{macro_call_script, macro_module_script};
use ljsp_macro_compiler_rs::template::{interp_index_of, resolve_template, template_source};
use ljsp_macro_compiler_rs::text::{decimal_text, ends_with, parse_usize, replace_text, starts_with};

fn sp(lo: u32, hi: u32) -> Span {
    Span { lo, hi }
}

fn node(kind: Kind, payload: Payload, children: Vec<Node>) -> Node {
    Node { kind, span: sp(1, 2), payload, children }
}

fn ident(name: &str) -> Node {
    node(Kind::EIdent, Payload::Name(name.to_string()), vec![])
}

fn num(v: f64, text: &str) -> Node {
    node(Kind::ENum, Payload::Number(JsNumber { bits: v.to_bits(), text: text.to_string() }, None), vec![])
}

fn stmt(e: Node) -> Node {
    node(Kind::SExpr, Payload::Empty, vec![e])
}

fn jstr(s: &str) -> JsonValue {
    JsonValue::Str(s.to_string())
}

fn obj(members: Vec<(&str, JsonValue)>) -> JsonValue {
    JsonValue::Object(members.into_iter().map(|(k, v)| Member { key: k.to_string(), value: v }).collect())
}

fn jident(name: &str) -> JsonValue {
    obj(vec![("type", jstr("Identifier")), ("name", jstr(name))])
}

fn field<'a>(v: &'a JsonValue, key: &str) -> &'a JsonValue {
    match v {
        JsonValue::Object(ms) => &ms.iter().find(|m| m.key == key).expect("missing member").value,
        _ => panic!("not an object"),
    }
}

fn text(v: &JsonValue) -> &str {
    match v {
        JsonValue::Str(s) => s.as_str(),
        _ => panic!("not a string"),
    }
}

fn name(n: &Node) -> &str {
    match &n.payload {
        Payload::Name(s) => s.as_str(),
        _ => "",
    }
}

#[test]
fn identifier_to_json() {
    let j = expr_to_json(&ident("x"));
    assert_eq!(text(field(&j, "type")), "Identifier");
    assert_eq!(text(field(&j, "name")), "x");
}

#[test]
fn binary_expression_to_json() {
    let e = node(Kind::EBin, Payload::Binary(BinaryOp::Add), vec![ident("a"), num(2.0, "2")]);
    let j = expr_to_json(&e);
    assert_eq!(text(field(&j, "type")), "BinaryExpression");
    assert_eq!(text(field(&j, "operator")), "+");
    assert_eq!(text(field(field(&j, "right"), "raw")), "2");
}

#[test]
fn unsupported_expression_to_json() {
    let j = expr_to_json(&node(Kind::Other, Payload::Handle(7, "Expr::Fn(..)".to_string()), vec![]));
    assert_eq!(text(field(&j, "type")), "Unsupported");
    assert_eq!(text(field(&j, "detail")), "Expr::Fn(..)");
    // A node written in the source carries the text that describes it.
    let a = expr_to_json(&node(Kind::EAssign, Payload::Text("Assign(AssignExpr { .. })".to_string()), vec![ident("x"), ident("y")]));
    assert_eq!(text(field(&a, "type")), "Unsupported");
    assert_eq!(text(field(&a, "detail")), "Assign(AssignExpr { .. })");
    let func = node(
        Kind::EFn,
        Payload::Func { is_async: false, is_generator: false, text: "Fn(FnExpr { .. })".to_string() },
        vec![],
    );
    assert_eq!(text(field(&expr_to_json(&func), "detail")), "Fn(FnExpr { .. })");
    let throw = node(Kind::SThrow, Payload::Text("Throw(ThrowStmt { .. })".to_string()), vec![ident("e")]);
    assert_eq!(text(field(&stmt_to_json(&throw), "detail")), "Throw(ThrowStmt { .. })");
    // One that was not written in the source is described by its kind.
    let f = expr_to_json(&node(Kind::EAssign, Payload::Empty, vec![]));
    assert_eq!(text(field(&f, "detail")), "EAssign");
}

#[test]
fn statement_to_json() {
    let j = stmt_to_json(&stmt(ident("y")));
    assert_eq!(text(field(&j, "type")), "ExpressionStatement");
    assert_eq!(text(field(field(&j, "expression"), "name")), "y");
}

#[test]
fn expression_json_round_trip() {
    let e = node(Kind::EBin, Payload::Binary(BinaryOp::Mul), vec![ident("a"), num(3.0, "3")]);
    let back = json_to_expr(&expr_to_json(&e), sp(8, 9)).unwrap();
    assert!(back.kind == Kind::EBin);
    assert!(matches!(back.payload, Payload::Binary(BinaryOp::Mul)));
    assert_eq!(back.span, sp(8, 9));
    assert_eq!(name(&back.children[0]), "a");
    assert_eq!(back.children[0].span, sp(8, 9));
    match &back.children[1].payload {
        Payload::Number(n, _) => assert_eq!(n.bits, 3.0f64.to_bits()),
        _ => panic!("expected a number"),
    }
}

#[test]
fn object_boolean_null_and_return_round_trip() {
    // `return { a: true, b: null };`
    let key = |k: &str| node(Kind::PropName, Payload::Name(k.to_string()), vec![]);
    let object = node(
        Kind::EObject,
        Payload::Empty,
        vec![
            node(Kind::KeyValue, Payload::Empty, vec![key("a"), node(Kind::EBool, Payload::Bool(true), vec![])]),
            node(Kind::KeyValue, Payload::Empty, vec![key("b"), node(Kind::ENull, Payload::Empty, vec![])]),
        ],
    );
    let r = node(Kind::SReturn, Payload::Empty, vec![object]);
    let back = json_to_stmt(&stmt_to_json(&r), sp(2, 7)).unwrap();
    assert!(back.kind == Kind::SReturn);
    assert_eq!(back.span, sp(2, 7));
    let o = &back.children[0];
    assert!(o.kind == Kind::EObject);
    assert_eq!(o.children.len(), 2);
    assert_eq!(name(&o.children[0].children[0]), "a");
    assert!(matches!(o.children[0].children[1].payload, Payload::Bool(true)));
    assert_eq!(name(&o.children[1].children[0]), "b");
    assert!(o.children[1].children[1].kind == Kind::ENull);
    let bare = node(Kind::SReturn, Payload::Empty, vec![node(Kind::Absent, Payload::Empty, vec![])]);
    let back2 = json_to_stmt(&stmt_to_json(&bare), sp(0, 1)).unwrap();
    assert!(back2.children[0].kind == Kind::Absent);
}

#[test]
fn json_block_to_statement() {
    let j = obj(vec![
        ("type", jstr("BlockStatement")),
        ("body", JsonValue::Array(vec![obj(vec![("type", jstr("ExpressionStatement")), ("expression", jident("z"))])])),
    ]);
    let s = json_to_stmt(&j, sp(4, 5)).unwrap();
    assert!(s.kind == Kind::SBlock);
    assert_eq!(s.children.len(), 1);
    assert_eq!(name(&s.children[0].children[0]), "z");
}

#[test]
fn json_of_other_shape_yields_nothing() {
    assert!(json_to_expr(&obj(vec![("type", jstr("ThisExpression"))]), sp(0, 0)).is_none());
    assert!(json_to_stmt(&jident("x"), sp(0, 0)).is_none());
    assert!(json_to_expr(&JsonValue::Null, sp(0, 0)).is_none());
}

#[test]
fn malformed_arrow_parameter_is_detected() {
    let arrow = obj(vec![
        ("type", jstr("ArrowFunctionExpression")),
        ("params", JsonValue::Array(vec![obj(vec![("type", jstr("Identifier"))])])),
        ("body", jident("x")),
    ]);
    assert!(json_conversion_crashes(&arrow, FromJson::Expr, sp(0, 0)));
    assert!(!json_conversion_crashes(&jident("x"), FromJson::Expr, sp(0, 0)));
}

#[test]
fn placeholder_indices() {
    assert_eq!(interp_index_of(&"__MACRO_INTERP_3__".to_string()), Some(3));
    assert_eq!(interp_index_of(&"__MACRO_INTERP_12__".to_string()), Some(12));
    assert_eq!(interp_index_of(&"__MACRO_INTERP_x__".to_string()), None);
    assert_eq!(interp_index_of(&"value".to_string()), None);
}

#[test]
fn expression_templates_are_parenthesized() {
    assert_eq!(template_source(&"expression".to_string(), &"a + b".to_string()), "(a + b)");
    assert_eq!(template_source(&"statement".to_string(), &"f();".to_string()), "f();");
}

#[test]
fn template_placeholder_is_replaced() {
    let parsed = node(
        Kind::Module,
        Payload::Empty,
        vec![stmt(node(
            Kind::EParen,
            Payload::Empty,
            vec![node(Kind::EBin, Payload::Binary(BinaryOp::Add), vec![ident("__MACRO_INTERP_0__"), num(1.0, "1")])],
        ))],
    );
    let r = resolve_template(&"expression".to_string(), Some(&parsed), &vec![jident("k")]);
    match r {
        Conv::Done(j) => {
            assert_eq!(text(field(&j, "type")), "ParenExpression");
            let inner = field(&j, "expression");
            assert_eq!(text(field(field(inner, "left"), "name")), "k");
        },
        _ => panic!("expected a resolved template"),
    }
    assert!(matches!(resolve_template(&"expression".to_string(), None, &vec![]), Conv::Fail));
    assert!(matches!(resolve_template(&"unknown".to_string(), Some(&parsed), &vec![]), Conv::Fail));
}

#[test]
fn template_placeholder_in_a_key_position_fails() {
    // ctx.syntax.expression`{ ${k}: 1 }`: a key takes no value.
    let key = node(Kind::PropName, Payload::Name("__MACRO_INTERP_0__".to_string()), vec![]);
    let object = node(Kind::EObject, Payload::Empty, vec![node(Kind::KeyValue, Payload::Empty, vec![key, num(1.0, "1")])]);
    let parsed = node(Kind::Module, Payload::Empty, vec![stmt(node(Kind::EParen, Payload::Empty, vec![object]))]);
    assert!(matches!(resolve_template(&"expression".to_string(), Some(&parsed), &vec![jident("k")]), Conv::Fail));
    // ctx.syntax.expression`a.${p}`: neither does a member name.
    let member = node(
        Kind::EMember,
        Payload::Empty,
        vec![ident("a"), node(Kind::PropName, Payload::Name("__MACRO_INTERP_0__".to_string()), vec![])],
    );
    let parsed2 = node(Kind::Module, Payload::Empty, vec![stmt(node(Kind::EParen, Payload::Empty, vec![member]))]);
    assert!(matches!(resolve_template(&"expression".to_string(), Some(&parsed2), &vec![jident("p")]), Conv::Fail));
}

#[test]
fn template_placeholder_past_the_values_fails() {
    let parsed = node(Kind::Module, Payload::Empty, vec![stmt(node(Kind::EParen, Payload::Empty, vec![ident("__MACRO_INTERP_1__")]))]);
    assert!(matches!(resolve_template(&"expression".to_string(), Some(&parsed), &vec![jident("k")]), Conv::Fail));
}

#[test]
fn program_template_is_a_block() {
    let parsed = node(Kind::Module, Payload::Empty, vec![stmt(ident("a")), stmt(ident("b"))]);
    match resolve_template(&"program".to_string(), Some(&parsed), &vec![]) {
        Conv::Done(j) => {
            assert_eq!(text(field(&j, "type")), "BlockStatement");
            match field(&j, "body") {
                JsonValue::Array(a) => assert_eq!(a.len(), 2),
                _ => panic!("expected an array"),
            }
        },
        _ => panic!("expected a block"),
    }
}

#[test]
fn text_helpers() {
    assert_eq!(replace_text(&"export const a = 1; export const b".to_string(), "export const ", "exports."), "exports.a = 1; exports.b");
    assert_eq!(parse_usize(&"42".to_string()), Some(42));
    assert_eq!(parse_usize(&"+7".to_string()), Some(7));
    assert_eq!(parse_usize(&"".to_string()), None);
    assert_eq!(parse_usize(&"4x".to_string()), None);
    assert_eq!(decimal_text(305), "305");
    assert_eq!(decimal_text(0), "0");
    assert!(starts_with(&"__MACRO_INTERP_1__".to_string(), "__MACRO_INTERP_"));
    assert!(ends_with(&"./a.macro.js".to_string(), ".macro.js"));
    assert!(!ends_with(&"./a.js".to_string(), ".macro.js"));
}

#[test]
fn macro_module_script_text() {
    let code = "import { defineMacro } from \"@ljsp/macro-runtime\";\nexport const unless = defineMacro(f);\nexport function helper() {}";
    let s = macro_module_script(&"./c.macro.js".to_string(), &code.to_string());
    let expected = "(function(exports) { \n                const { defineMacro } = globalThis;\n                ;\nexports.unless = defineMacro(f);\nexports.helper = function helper() {} \n            })(globalThis.macroExports['./c.macro.js'] = {});";
    assert_eq!(s, expected);
}

#[test]
fn macro_module_imports_become_bindings_of_loaded_exports() {
    let code = "import { a, b as c } from \"./x.macro.js\";\nimport * as ns from './y.macro.js';\nimport { map } from 'ljsp';";
    let s = macro_module_script(&"./m.macro.js".to_string(), &code.to_string());
    let expected = "(function(exports) { \n                const { defineMacro } = globalThis;\n                const { a, b: c } = globalThis.macroExports[\"./x.macro.js\"];\nconst ns = globalThis.macroExports['./y.macro.js'];\nimport { map } from 'ljsp'; \n            })(globalThis.macroExports['./m.macro.js'] = {});";
    assert_eq!(s, expected);
}

#[test]
fn macro_call_script_text() {
    let s = macro_call_script(&"./c.macro.js".to_string(), &"unless".to_string(), &"[1,2]".to_string());
    assert_eq!(s, "globalThis.macroExports['./c.macro.js']['unless'].fn(globalThis.ctx, ...[1,2])");
}

#[test]
fn declaration_json_round_trip() {
    let decl = node(
        Kind::SVar,
        Payload::Var(ljsp_macro_compiler_rs::ast::VarKind::Let),
        vec![
            node(
                Kind::Declarator,
                Payload::Empty,
                vec![node(Kind::PIdent, Payload::Name("a".to_string()), vec![]), num(1.0, "1")],
            ),
            node(
                Kind::Declarator,
                Payload::Empty,
                vec![node(Kind::PIdent, Payload::Name("b".to_string()), vec![]), node(Kind::Absent, Payload::Empty, vec![])],
            ),
        ],
    );
    let j = stmt_to_json(&decl);
    assert_eq!(text(field(&j, "type")), "VariableDeclaration");
    assert_eq!(text(field(&j, "kind")), "let");
    let back = json_to_stmt(&j, sp(3, 4)).unwrap();
    assert!(back.kind == Kind::SVar);
    assert!(matches!(back.payload, Payload::Var(ljsp_macro_compiler_rs::ast::VarKind::Let)));
    assert_eq!(back.children.len(), 2);
    assert_eq!(name(&back.children[0].children[0]), "a");
    assert!(back.children[0].children[1].kind == Kind::ENum);
    assert_eq!(name(&back.children[1].children[0]), "b");
    assert!(back.children[1].children[1].kind == Kind::Absent);
}

#[test]
fn declaration_built_by_ctx_var_is_a_statement() {
    let init = obj(vec![("type", jstr("Literal")), ("value", JsonValue::Str("v".to_string())), ("raw", jstr("'v'"))]);
    let j = obj(vec![
        ("type", jstr("VariableDeclaration")),
        ("kind", jstr("const")),
        (
            "declarations",
            JsonValue::Array(vec![obj(vec![
                ("type", jstr("VariableDeclarator")),
                ("id", jident("x")),
                ("init", init),
            ])]),
        ),
    ]);
    let s = json_to_stmt(&j, sp(0, 0)).unwrap();
    assert!(s.kind == Kind::SVar);
    assert_eq!(name(&s.children[0].children[0]), "x");
    assert!(s.children[0].children[1].kind == Kind::EStr);
    let bad = obj(vec![("type", jstr("VariableDeclaration")), ("kind", jstr("auto")), ("declarations", JsonValue::Array(vec![]))]);
    assert!(json_to_stmt(&bad, sp(0, 0)).is_none());
}

#[test]
fn template_binding_placeholder_takes_the_identifier_name() {
    let parsed = node(
        Kind::Module,
        Payload::Empty,
        vec![node(
            Kind::SVar,
            Payload::Var(ljsp_macro_compiler_rs::ast::VarKind::Const),
            vec![node(
                Kind::Declarator,
                Payload::Empty,
                vec![node(Kind::PIdent, Payload::Name("__MACRO_INTERP_0__".to_string()), vec![]), num(2.0, "2")],
            )],
        )],
    );
    match resolve_template(&"statement".to_string(), Some(&parsed), &vec![jident("total")]) {
        Conv::Done(j) => {
            assert_eq!(text(field(&j, "type")), "VariableDeclaration");
            match field(&j, "declarations") {
                JsonValue::Array(ds) => assert_eq!(text(field(field(&ds[0], "id"), "name")), "total"),
                _ => panic!("expected declarators"),
            }
        },
        _ => panic!("expected a resolved template"),
    }
}

#[test]
fn template_binding_placeholder_of_a_non_identifier_fails() {
    let parsed = node(
        Kind::Module,
        Payload::Empty,
        vec![node(
            Kind::SVar,
            Payload::Var(ljsp_macro_compiler_rs::ast::VarKind::Const),
            vec![node(
                Kind::Declarator,
                Payload::Empty,
                vec![node(Kind::PIdent, Payload::Name("__MACRO_INTERP_0__".to_string()), vec![]), num(2.0, "2")],
            )],
        )],
    );
    let literal = obj(vec![("type", jstr("Literal")), ("value", jstr("x")), ("raw", jstr("'x'"))]);
    assert!(matches!(resolve_template(&"statement".to_string(), Some(&parsed), &vec![literal]), Conv::Fail));
}

#[test]
fn template_value_of_the_wrong_shape_fails() {
    let parsed = node(
        Kind::Module,
        Payload::Empty,
        vec![stmt(node(Kind::EParen, Payload::Empty, vec![ident("__MACRO_INTERP_0__")]))],
    );
    let bogus = obj(vec![("type", jstr("NoSuchNode"))]);
    assert!(matches!(resolve_template(&"expression".to_string(), Some(&parsed), &vec![bogus]), Conv::Fail));
    let list = JsonValue::Array(vec![jident("a"), jident("b")]);
    assert!(matches!(resolve_template(&"expression".to_string(), Some(&parsed), &vec![list]), Conv::Fail));
}

#[test]
fn template_statement_list_placeholder_takes_every_statement() {
    // `__MACRO_INTERP_0__;` in a program template, with an array of two statements.
    let parsed = node(Kind::Module, Payload::Empty, vec![stmt(ident("__MACRO_INTERP_0__"))]);
    let s1 = obj(vec![("type", jstr("ExpressionStatement")), ("expression", jident("a"))]);
    let s2 = obj(vec![("type", jstr("ExpressionStatement")), ("expression", jident("b"))]);
    match resolve_template(&"program".to_string(), Some(&parsed), &vec![JsonValue::Array(vec![s1, s2])]) {
        Conv::Done(j) => match field(&j, "body") {
            JsonValue::Array(a) => {
                assert_eq!(a.len(), 2);
                assert_eq!(text(field(field(&a[1], "expression"), "name")), "b");
            },
            _ => panic!("expected an array"),
        },
        _ => panic!("expected a block"),
    }
    let with_bogus = JsonValue::Array(vec![jident("a"), obj(vec![("type", jstr("NoSuchNode"))])]);
    assert!(matches!(resolve_template(&"program".to_string(), Some(&parsed), &vec![with_bogus]), Conv::Fail));
}

#[test]
fn json_object_expression_to_syntax() {
    let lit1 = obj(vec![("type", jstr("Literal")), ("value", num_json(1.0, "1")), ("raw", jstr("1"))]);
    let prop = obj(vec![("type", jstr("Property")), ("key", jident("a")), ("value", lit1), ("kind", jstr("init"))]);
    let j = obj(vec![("type", jstr("ObjectExpression")), ("properties", JsonValue::Array(vec![prop]))]);
    let e = json_to_expr(&j, sp(3, 9)).unwrap();
    assert!(e.kind == Kind::EObject);
    assert_eq!(e.span, sp(3, 9));
    assert_eq!(e.children.len(), 1);
    assert!(e.children[0].kind == Kind::KeyValue);
    assert_eq!(name(&e.children[0].children[0]), "a");
    assert!(e.children[0].children[1].kind == Kind::ENum);
}

#[test]
fn every_node_read_back_stands_at_the_call_site() {
    // `f(a.b, [x])` read at 4..20: each node is at 4..20, or at no span.
    let member = obj(vec![
        ("type", jstr("MemberExpression")),
        ("object", jident("a")),
        ("property", jident("b")),
        ("computed", JsonValue::Bool(false)),
    ]);
    let arr = obj(vec![("type", jstr("ArrayExpression")), ("elements", JsonValue::Array(vec![jident("x")]))]);
    let j = obj(vec![
        ("type", jstr("CallExpression")),
        ("callee", jident("f")),
        ("arguments", JsonValue::Array(vec![member, arr])),
    ]);
    let e = json_to_expr(&j, sp(4, 20)).unwrap();
    fn check(n: &Node) {
        assert!(n.span == sp(4, 20) || n.span == sp(0, 0));
        for c in &n.children {
            check(c);
        }
    }
    check(&e);
    assert_eq!(e.span, sp(4, 20));
    assert_eq!(e.children[0].span, sp(4, 20));
    assert_eq!(e.children[1].children[0].children[0].span, sp(4, 20));
}

#[test]
fn json_every_binary_operator_to_syntax() {
    for (text_op, op) in [("!==", BinaryOp::NotEqEq), ("<=", BinaryOp::LtEq), ("%", BinaryOp::Mod), ("&&", BinaryOp::LogicalAnd), ("??", BinaryOp::NullishCoalescing)] {
        let j = obj(vec![
            ("type", jstr("BinaryExpression")),
            ("left", jident("a")),
            ("right", jident("b")),
            ("operator", jstr(text_op)),
        ]);
        let e = json_to_expr(&j, sp(0, 1)).unwrap();
        assert!(e.kind == Kind::EBin);
        assert!(matches!(e.payload, Payload::Binary(o) if o == op));
    }
}

#[test]
fn json_null_and_boolean_literals_to_syntax() {
    let n = json_to_expr(&obj(vec![("type", jstr("Literal")), ("value", JsonValue::Null), ("raw", jstr("null"))]), sp(1, 5)).unwrap();
    assert!(n.kind == Kind::ENull);
    let b = json_to_expr(&obj(vec![("type", jstr("Literal")), ("value", JsonValue::Bool(true)), ("raw", jstr("true"))]), sp(1, 5)).unwrap();
    assert!(b.kind == Kind::EBool);
    assert!(matches!(b.payload, Payload::Bool(true)));
    let back = expr_to_json(&b);
    assert!(matches!(field(&back, "value"), JsonValue::Bool(true)));
    let back_null = expr_to_json(&n);
    assert!(matches!(field(&back_null, "value"), JsonValue::Null));
}

#[test]
fn json_return_statement_to_syntax() {
    let r = obj(vec![("type", jstr("ReturnStatement")), ("argument", jident("x"))]);
    let s = json_to_stmt(&r, sp(2, 8)).unwrap();
    assert!(s.kind == Kind::SReturn);
    assert_eq!(name(&s.children[0]), "x");
    let bare = obj(vec![("type", jstr("ReturnStatement")), ("argument", JsonValue::Null)]);
    let s2 = json_to_stmt(&bare, sp(2, 8)).unwrap();
    assert!(s2.children[0].kind == Kind::Absent);
}

#[test]
fn json_block_with_a_statement_that_does_not_convert_yields_nothing() {
    let j = obj(vec![
        ("type", jstr("BlockStatement")),
        (
            "body",
            JsonValue::Array(vec![
                obj(vec![("type", jstr("Unsupported"))]),
                obj(vec![("type", jstr("ExpressionStatement")), ("expression", jident("x"))]),
            ]),
        ),
    ]);
    assert!(json_to_stmt(&j, sp(0, 1)).is_none());
}

fn num_json(v: f64, text: &str) -> JsonValue {
    JsonValue::Number(JsNumber { bits: v.to_bits(), text: text.to_string() })
}
