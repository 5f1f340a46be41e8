//! What survives a trip through JSON: syntax that macro code receives and hands
//! back unchanged comes back as the same syntax, respanned at the call site.
use vstd::prelude::*;
use crate::ast::{Kind, SpecNode, SpecPayload, Span, snode, sleaf, dummy_span};
use crate::json::{SpecJson, jget, jget_str, lemma_member_index};
use crate::marshal::{
    ToJson, FromJson, Conv, to_json, to_json_list, from_json, from_json_list, from_json_stmts,
    json_arrow, json_binary, json_unary, json_member, json_call, jtyped, name_of, json_var_decl,
    json_declarators, json_declarator, declarator_name, declarators_json, declarator_json, var_kind_of,
    var_kind_text,
    binary_op_of, binary_op_text, unary_op_of, unary_op_text, arg_node, arrow_node, prop_node,
    prop_key_name,
};

verus! {

broadcast use vstd::string::group_string_axioms;

/// The JSON reading that matches a rendering position.
pub open spec fn reading(m: ToJson) -> FromJson {
    match m {
        ToJson::Stmt => FromJson::Stmt,
        ToJson::Elem => FromJson::Elem,
        ToJson::Argument => FromJson::Argument,
        ToJson::Param => FromJson::Param,
        ToJson::Prop => FromJson::Prop,
        _ => FromJson::Expr,
    }
}

/// Whether a node, in a given position, is made only of what macro results can express:
/// identifiers; number, string, boolean and `null` literals; arrays; object
/// literals whose properties are `key: value` with an identifier key; arrow
/// functions with identifier parameters; calls; member accesses; parentheses;
/// every binary and unary operator that JSON names and reads back; and
/// expression, block, `if`, `return` and variable declaration statements.
pub open spec fn expressible(n: SpecNode, m: ToJson) -> bool
    decreases n, 0nat,
{
    match m {
        ToJson::Elem => n.kind == Kind::Hole || (n.kind == Kind::Arg && n.children.len() == 1
            && expressible(n.children[0], ToJson::Expr)),
        ToJson::Argument => n.kind == Kind::Arg && n.children.len() == 1 && expressible(n.children[0], ToJson::Expr),
        ToJson::Param => n.kind == Kind::PIdent && n.payload is Name,
        ToJson::Prop => n.kind == Kind::KeyValue && n.children.len() == 2 && n.children[0].kind == Kind::PropName
            && n.children[0].payload is Name && expressible(n.children[1], ToJson::Expr),
        ToJson::Stmt => if n.kind == Kind::SExpr {
            n.children.len() == 1 && expressible(n.children[0], ToJson::Expr)
        } else if n.kind == Kind::SBlock {
            all_expressible(n.children, ToJson::Stmt)
        } else if n.kind == Kind::SIf {
            n.children.len() == 3 && expressible(n.children[0], ToJson::Expr)
                && expressible(n.children[1], ToJson::Stmt)
                && (n.children[2].kind == Kind::Absent || expressible(n.children[2], ToJson::Stmt))
        } else if n.kind == Kind::SReturn {
            n.children.len() == 1 && (n.children[0].kind == Kind::Absent || expressible(n.children[0], ToJson::Expr))
        } else if n.kind == Kind::SVar {
            n.payload is Var && declarators_expressible(n.children)
        } else {
            false
        },
        ToJson::Expr => if n.kind == Kind::EIdent {
            n.payload is Name
        } else if n.kind == Kind::ENum {
            n.payload is Number
        } else if n.kind == Kind::EStr {
            n.payload is Str
        } else if n.kind == Kind::EArray {
            all_expressible(n.children, ToJson::Elem)
        } else if n.kind == Kind::EObject {
            all_expressible(n.children, ToJson::Prop)
        } else if n.kind == Kind::EBool {
            n.payload is Bool
        } else if n.kind == Kind::ENull {
            true
        } else if n.kind == Kind::EArrow {
            n.children.len() == 2 && n.children[0].kind == Kind::Params
                && all_expressible(n.children[0].children, ToJson::Param)
                && if n.children[1].kind == Kind::SBlock {
                    expressible(n.children[1], ToJson::Stmt)
                } else {
                    expressible(n.children[1], ToJson::Expr)
                }
        } else if n.kind == Kind::EBin {
            n.children.len() == 2 && n.payload is Binary
                && binary_op_of(binary_op_text(n.payload->Binary_0)) == Some(n.payload->Binary_0)
                && expressible(n.children[0], ToJson::Expr) && expressible(n.children[1], ToJson::Expr)
        } else if n.kind == Kind::EUnary {
            n.children.len() == 1 && n.payload is Unary
                && unary_op_of(unary_op_text(n.payload->Unary_0)) == Some(n.payload->Unary_0)
                && expressible(n.children[0], ToJson::Expr)
        } else if n.kind == Kind::ECall {
            n.children.len() == 2 && expressible(n.children[0], ToJson::Expr)
                && n.children[1].kind == Kind::Args && all_expressible(n.children[1].children, ToJson::Argument)
        } else if n.kind == Kind::EMember {
            n.children.len() == 2 && expressible(n.children[0], ToJson::Expr)
                && ((n.children[1].kind == Kind::PropName && n.children[1].payload is Name)
                    || (n.children[1].kind == Kind::Computed && n.children[1].children.len() == 1
                        && expressible(n.children[1].children[0], ToJson::Expr)))
        } else if n.kind == Kind::EParen {
            n.children.len() == 1 && expressible(n.children[0], ToJson::Expr)
        } else {
            false
        },
        _ => false,
    }
}

/// Declarators of an identifier with an optional expressible initializer.
pub open spec fn declarators_expressible(s: Seq<SpecNode>) -> bool
    decreases s, 0nat,
{
    if s.len() == 0 {
        true
    } else {
        let d = s.last();
        declarators_expressible(s.drop_last()) && d.kind == Kind::Declarator && d.children.len() == 2
            && d.children[0].kind == Kind::PIdent && d.children[0].payload is Name
            && (d.children[1].kind == Kind::Absent || expressible(d.children[1], ToJson::Expr))
    }
}

pub open spec fn all_expressible(s: Seq<SpecNode>, m: ToJson) -> bool
    decreases s,
{
    if s.len() == 0 {
        true
    } else {
        all_expressible(s.drop_last(), m) && expressible(s.last(), m)
    }
}

/// The node that comes back: every span replaced by `sp` (lists and arguments
/// by none), raw literal text, spread marks and arrow flags dropped.
pub open spec fn respan(n: SpecNode, m: ToJson, sp: Span) -> SpecNode
    decreases n, 0nat,
{
    match m {
        ToJson::Elem => if n.kind == Kind::Hole {
            sleaf(Kind::Hole, dummy_span(), SpecPayload::Empty)
        } else if n.children.len() > 0 {
            arg_node(respan(n.children[0], ToJson::Expr, sp))
        } else {
            n
        },
        ToJson::Argument => if n.children.len() > 0 {
            arg_node(respan(n.children[0], ToJson::Expr, sp))
        } else {
            n
        },
        ToJson::Param => sleaf(Kind::PIdent, sp, SpecPayload::Name(name_of(n))),
        ToJson::Prop => if n.children.len() >= 2 {
            prop_node(name_of(n.children[0]), respan(n.children[1], ToJson::Expr, sp), sp)
        } else {
            n
        },
        ToJson::Stmt => if n.kind == Kind::SExpr && n.children.len() > 0 {
            snode(Kind::SExpr, sp, SpecPayload::Empty, seq![respan(n.children[0], ToJson::Expr, sp)])
        } else if n.kind == Kind::SBlock {
            snode(Kind::SBlock, sp, SpecPayload::Empty, respan_list(n.children, ToJson::Stmt, sp))
        } else if n.kind == Kind::SIf && n.children.len() >= 3 {
            snode(Kind::SIf, sp, SpecPayload::Empty, seq![
                respan(n.children[0], ToJson::Expr, sp),
                respan(n.children[1], ToJson::Stmt, sp),
                if n.children[2].kind == Kind::Absent {
                    sleaf(Kind::Absent, dummy_span(), SpecPayload::Empty)
                } else {
                    respan(n.children[2], ToJson::Stmt, sp)
                },
            ])
        } else if n.kind == Kind::SReturn && n.children.len() >= 1 {
            snode(Kind::SReturn, sp, SpecPayload::Empty, seq![
                if n.children[0].kind == Kind::Absent {
                    sleaf(Kind::Absent, dummy_span(), SpecPayload::Empty)
                } else {
                    respan(n.children[0], ToJson::Expr, sp)
                },
            ])
        } else if n.kind == Kind::SVar && n.payload is Var {
            snode(Kind::SVar, sp, n.payload, respan_declarators(n.children, sp))
        } else {
            n
        },
        ToJson::Expr => if n.kind == Kind::EIdent {
            sleaf(Kind::EIdent, sp, n.payload)
        } else if n.kind == Kind::ENum && n.payload is Number {
            sleaf(Kind::ENum, sp, SpecPayload::Number(n.payload->Number_0, None))
        } else if n.kind == Kind::EStr && n.payload is Str {
            sleaf(Kind::EStr, sp, SpecPayload::Str(n.payload->Str_0, None))
        } else if n.kind == Kind::EArray {
            snode(Kind::EArray, sp, SpecPayload::Empty, respan_list(n.children, ToJson::Elem, sp))
        } else if n.kind == Kind::EObject {
            snode(Kind::EObject, sp, SpecPayload::Empty, respan_list(n.children, ToJson::Prop, sp))
        } else if n.kind == Kind::EBool {
            sleaf(Kind::EBool, sp, n.payload)
        } else if n.kind == Kind::ENull {
            sleaf(Kind::ENull, sp, SpecPayload::Empty)
        } else if n.kind == Kind::EArrow && n.children.len() >= 2 {
            arrow_node(sp, respan_list(n.children[0].children, ToJson::Param, sp),
                if n.children[1].kind == Kind::SBlock {
                    respan(n.children[1], ToJson::Stmt, sp)
                } else {
                    respan(n.children[1], ToJson::Expr, sp)
                })
        } else if n.kind == Kind::EBin && n.children.len() >= 2 {
            snode(Kind::EBin, sp, n.payload, seq![
                respan(n.children[0], ToJson::Expr, sp), respan(n.children[1], ToJson::Expr, sp)])
        } else if n.kind == Kind::EUnary && n.children.len() >= 1 {
            snode(Kind::EUnary, sp, n.payload, seq![respan(n.children[0], ToJson::Expr, sp)])
        } else if n.kind == Kind::ECall && n.children.len() >= 2 {
            snode(Kind::ECall, sp, SpecPayload::Empty, seq![
                respan(n.children[0], ToJson::Expr, sp),
                snode(Kind::Args, dummy_span(), SpecPayload::Empty,
                    respan_list(n.children[1].children, ToJson::Argument, sp)),
            ])
        } else if n.kind == Kind::EMember && n.children.len() >= 2 {
            snode(Kind::EMember, sp, SpecPayload::Empty, seq![
                respan(n.children[0], ToJson::Expr, sp),
                if n.children[1].kind == Kind::PropName {
                    sleaf(Kind::PropName, sp, n.children[1].payload)
                } else if n.children[1].children.len() > 0 {
                    snode(Kind::Computed, sp, SpecPayload::Empty,
                        seq![respan(n.children[1].children[0], ToJson::Expr, sp)])
                } else {
                    n.children[1]
                },
            ])
        } else if n.kind == Kind::EParen && n.children.len() >= 1 {
            snode(Kind::EParen, sp, SpecPayload::Empty, seq![respan(n.children[0], ToJson::Expr, sp)])
        } else {
            n
        },
        _ => n,
    }
}

/// Declarators respanned: each an identifier and its initializer, or nothing.
pub open spec fn respan_declarators(s: Seq<SpecNode>, sp: Span) -> Seq<SpecNode>
    decreases s, 0nat,
{
    if s.len() == 0 {
        Seq::empty()
    } else {
        let d = s.last();
        respan_declarators(s.drop_last(), sp).push(if d.children.len() >= 2 {
            snode(Kind::Declarator, sp, SpecPayload::Empty, seq![
                sleaf(Kind::PIdent, sp, SpecPayload::Name(name_of(d.children[0]))),
                if d.children[1].kind == Kind::Absent {
                    sleaf(Kind::Absent, dummy_span(), SpecPayload::Empty)
                } else {
                    respan(d.children[1], ToJson::Expr, sp)
                },
            ])
        } else {
            d
        })
    }
}

pub open spec fn respan_list(s: Seq<SpecNode>, m: ToJson, sp: Span) -> Seq<SpecNode>
    decreases s,
{
    if s.len() == 0 {
        Seq::empty()
    } else {
        respan_list(s.drop_last(), m, sp).push(respan(s.last(), m, sp))
    }
}

/// The lengths and first characters of the literals that JSON objects are keyed
/// and typed by, so that any two of them are seen to differ.
proof fn lemma_literals()
    ensures
        "type"@.len() == 4,
        "type"@[0] == 't',
        "type"@[1] == 'y',
        "type"@[2] == 'p',
        "type"@[3] == 'e',
        "name"@.len() == 4,
        "name"@[0] == 'n',
        "name"@[1] == 'a',
        "name"@[2] == 'm',
        "name"@[3] == 'e',
        "value"@.len() == 5,
        "value"@[0] == 'v',
        "value"@[1] == 'a',
        "value"@[2] == 'l',
        "value"@[3] == 'u',
        "raw"@.len() == 3,
        "raw"@[0] == 'r',
        "raw"@[1] == 'a',
        "raw"@[2] == 'w',
        "elements"@.len() == 8,
        "elements"@[0] == 'e',
        "elements"@[1] == 'l',
        "elements"@[2] == 'e',
        "elements"@[3] == 'm',
        "params"@.len() == 6,
        "params"@[0] == 'p',
        "params"@[1] == 'a',
        "params"@[2] == 'r',
        "params"@[3] == 'a',
        "body"@.len() == 4,
        "body"@[0] == 'b',
        "body"@[1] == 'o',
        "body"@[2] == 'd',
        "body"@[3] == 'y',
        "expression"@.len() == 10,
        "expression"@[0] == 'e',
        "expression"@[1] == 'x',
        "expression"@[2] == 'p',
        "expression"@[3] == 'r',
        "left"@.len() == 4,
        "left"@[0] == 'l',
        "left"@[1] == 'e',
        "left"@[2] == 'f',
        "left"@[3] == 't',
        "right"@.len() == 5,
        "right"@[0] == 'r',
        "right"@[1] == 'i',
        "right"@[2] == 'g',
        "right"@[3] == 'h',
        "operator"@.len() == 8,
        "operator"@[0] == 'o',
        "operator"@[1] == 'p',
        "operator"@[2] == 'e',
        "operator"@[3] == 'r',
        "argument"@.len() == 8,
        "argument"@[0] == 'a',
        "argument"@[1] == 'r',
        "argument"@[2] == 'g',
        "argument"@[3] == 'u',
        "prefix"@.len() == 6,
        "prefix"@[0] == 'p',
        "prefix"@[1] == 'r',
        "prefix"@[2] == 'e',
        "prefix"@[3] == 'f',
        "callee"@.len() == 6,
        "callee"@[0] == 'c',
        "callee"@[1] == 'a',
        "callee"@[2] == 'l',
        "callee"@[3] == 'l',
        "arguments"@.len() == 9,
        "arguments"@[0] == 'a',
        "arguments"@[1] == 'r',
        "arguments"@[2] == 'g',
        "arguments"@[3] == 'u',
        "object"@.len() == 6,
        "object"@[0] == 'o',
        "object"@[1] == 'b',
        "object"@[2] == 'j',
        "object"@[3] == 'e',
        "property"@.len() == 8,
        "property"@[0] == 'p',
        "property"@[1] == 'r',
        "property"@[2] == 'o',
        "property"@[3] == 'p',
        "computed"@.len() == 8,
        "computed"@[0] == 'c',
        "computed"@[1] == 'o',
        "computed"@[2] == 'm',
        "computed"@[3] == 'p',
        "test"@.len() == 4,
        "test"@[0] == 't',
        "test"@[1] == 'e',
        "test"@[2] == 's',
        "test"@[3] == 't',
        "consequent"@.len() == 10,
        "consequent"@[0] == 'c',
        "consequent"@[1] == 'o',
        "consequent"@[2] == 'n',
        "consequent"@[3] == 's',
        "alternate"@.len() == 9,
        "alternate"@[0] == 'a',
        "alternate"@[1] == 'l',
        "alternate"@[2] == 't',
        "alternate"@[3] == 'e',
        "Identifier"@.len() == 10,
        "Identifier"@[0] == 'I',
        "Identifier"@[1] == 'd',
        "Identifier"@[2] == 'e',
        "Identifier"@[3] == 'n',
        "Literal"@.len() == 7,
        "Literal"@[0] == 'L',
        "Literal"@[1] == 'i',
        "Literal"@[2] == 't',
        "Literal"@[3] == 'e',
        "ArrayExpression"@.len() == 15,
        "ArrayExpression"@[0] == 'A',
        "ArrayExpression"@[1] == 'r',
        "ArrayExpression"@[2] == 'r',
        "ArrayExpression"@[3] == 'a',
        "ArrowFunctionExpression"@.len() == 23,
        "ArrowFunctionExpression"@[0] == 'A',
        "ArrowFunctionExpression"@[1] == 'r',
        "ArrowFunctionExpression"@[2] == 'r',
        "ArrowFunctionExpression"@[3] == 'o',
        "BinaryExpression"@.len() == 16,
        "BinaryExpression"@[0] == 'B',
        "BinaryExpression"@[1] == 'i',
        "BinaryExpression"@[2] == 'n',
        "BinaryExpression"@[3] == 'a',
        "UnaryExpression"@.len() == 15,
        "UnaryExpression"@[0] == 'U',
        "UnaryExpression"@[1] == 'n',
        "UnaryExpression"@[2] == 'a',
        "UnaryExpression"@[3] == 'r',
        "MemberExpression"@.len() == 16,
        "MemberExpression"@[0] == 'M',
        "MemberExpression"@[1] == 'e',
        "MemberExpression"@[2] == 'm',
        "MemberExpression"@[3] == 'b',
        "CallExpression"@.len() == 14,
        "CallExpression"@[0] == 'C',
        "CallExpression"@[1] == 'a',
        "CallExpression"@[2] == 'l',
        "CallExpression"@[3] == 'l',
        "ParenExpression"@.len() == 15,
        "ParenExpression"@[0] == 'P',
        "ParenExpression"@[1] == 'a',
        "ParenExpression"@[2] == 'r',
        "ParenExpression"@[3] == 'e',
        "BlockStatement"@.len() == 14,
        "BlockStatement"@[0] == 'B',
        "BlockStatement"@[1] == 'l',
        "BlockStatement"@[2] == 'o',
        "BlockStatement"@[3] == 'c',
        "IfStatement"@.len() == 11,
        "IfStatement"@[0] == 'I',
        "IfStatement"@[1] == 'f',
        "IfStatement"@[2] == 'S',
        "IfStatement"@[3] == 't',
        "ExpressionStatement"@.len() == 19,
        "ExpressionStatement"@[0] == 'E',
        "ExpressionStatement"@[1] == 'x',
        "ExpressionStatement"@[2] == 'p',
        "ExpressionStatement"@[3] == 'r',
        "ReturnStatement"@.len() == 15,
        "ReturnStatement"@[0] == 'R',
        "ObjectExpression"@.len() == 16,
        "ObjectExpression"@[0] == 'O',
        "Property"@.len() == 8,
        "Property"@[0] == 'P',
        "properties"@.len() == 10,
        "properties"@[0] == 'p',
        "properties"@[1] == 'r',
        "properties"@[2] == 'o',
        "properties"@[3] == 'p',
        "properties"@[4] == 'e',
        "key"@.len() == 3,
        "key"@[0] == 'k',
        "kind"@.len() == 4,
        "kind"@[0] == 'k',
        "kind"@[1] == 'i',
        "init"@.len() == 4,
        "init"@[0] == 'i',
{
    reveal_strlit("type");
    reveal_strlit("name");
    reveal_strlit("value");
    reveal_strlit("raw");
    reveal_strlit("elements");
    reveal_strlit("params");
    reveal_strlit("body");
    reveal_strlit("expression");
    reveal_strlit("left");
    reveal_strlit("right");
    reveal_strlit("operator");
    reveal_strlit("argument");
    reveal_strlit("prefix");
    reveal_strlit("callee");
    reveal_strlit("arguments");
    reveal_strlit("object");
    reveal_strlit("property");
    reveal_strlit("computed");
    reveal_strlit("test");
    reveal_strlit("consequent");
    reveal_strlit("alternate");
    reveal_strlit("Identifier");
    reveal_strlit("Literal");
    reveal_strlit("ArrayExpression");
    reveal_strlit("ArrowFunctionExpression");
    reveal_strlit("BinaryExpression");
    reveal_strlit("UnaryExpression");
    reveal_strlit("MemberExpression");
    reveal_strlit("CallExpression");
    reveal_strlit("ParenExpression");
    reveal_strlit("BlockStatement");
    reveal_strlit("IfStatement");
    reveal_strlit("ExpressionStatement");
    reveal_strlit("ReturnStatement");
    reveal_strlit("ObjectExpression");
    reveal_strlit("Property");
    reveal_strlit("properties");
    reveal_strlit("key");
    reveal_strlit("kind");
    reveal_strlit("init");
}

/// The literals of variable declarations, likewise.
proof fn lemma_declaration_literals()
    ensures
        "VariableDeclaration"@.len() == 19,
        "VariableDeclaration"@[0] == 'V',
        "VariableDeclarator"@.len() == 18,
        "VariableDeclarator"@[0] == 'V',
        "kind"@.len() == 4,
        "kind"@[0] == 'k',
        "declarations"@.len() == 12,
        "declarations"@[0] == 'd',
        "id"@.len() == 2,
        "id"@[0] == 'i',
        "id"@[1] == 'd',
        "init"@.len() == 4,
        "init"@[0] == 'i',
        "init"@[1] == 'n',
        "var"@.len() == 3,
        "var"@[0] == 'v',
        "let"@.len() == 3,
        "let"@[0] == 'l',
        "const"@.len() == 5,
        "const"@[0] == 'c',
{
    reveal_strlit("VariableDeclaration");
    reveal_strlit("VariableDeclarator");
    reveal_strlit("kind");
    reveal_strlit("declarations");
    reveal_strlit("id");
    reveal_strlit("init");
    reveal_strlit("var");
    reveal_strlit("let");
    reveal_strlit("const");
}

proof fn lemma_jget_at(ms: Seq<(Seq<char>, SpecJson)>, i: int)
    requires
        0 <= i < ms.len(),
        forall|j: int| 0 <= j < ms.len() && j != i ==> ms[j].0 != ms[i].0,
    ensures
        jget(SpecJson::Object(ms), ms[i].0) == Some(ms[i].1),
{
    lemma_member_index(ms, ms[i].0);
}

proof fn lemma_typed1(t: Seq<char>, k1: Seq<char>, v1: SpecJson)
    requires
        k1 != "type"@,
    ensures
        jget(jtyped(t, seq![(k1, v1)]), "type"@) == Some(SpecJson::Str(t)),
        jget(jtyped(t, seq![(k1, v1)]), k1) == Some(v1),
{
    let ms = seq![("type"@, SpecJson::Str(t))] + seq![(k1, v1)];
    assert(ms =~= seq![("type"@, SpecJson::Str(t)), (k1, v1)]);
    lemma_jget_at(ms, 0);
    lemma_jget_at(ms, 1);
}

proof fn lemma_typed2(t: Seq<char>, k1: Seq<char>, v1: SpecJson, k2: Seq<char>, v2: SpecJson)
    requires
        k1 != "type"@,
        k2 != "type"@,
        k1 != k2,
    ensures
        jget(jtyped(t, seq![(k1, v1), (k2, v2)]), "type"@) == Some(SpecJson::Str(t)),
        jget(jtyped(t, seq![(k1, v1), (k2, v2)]), k1) == Some(v1),
        jget(jtyped(t, seq![(k1, v1), (k2, v2)]), k2) == Some(v2),
{
    let ms = seq![("type"@, SpecJson::Str(t))] + seq![(k1, v1), (k2, v2)];
    assert(ms =~= seq![("type"@, SpecJson::Str(t)), (k1, v1), (k2, v2)]);
    lemma_jget_at(ms, 0);
    lemma_jget_at(ms, 1);
    lemma_jget_at(ms, 2);
}

proof fn lemma_typed3(t: Seq<char>, k1: Seq<char>, v1: SpecJson, k2: Seq<char>, v2: SpecJson,
    k3: Seq<char>, v3: SpecJson)
    requires
        k1 != "type"@,
        k2 != "type"@,
        k3 != "type"@,
        k1 != k2,
        k1 != k3,
        k2 != k3,
    ensures
        jget(jtyped(t, seq![(k1, v1), (k2, v2), (k3, v3)]), "type"@) == Some(SpecJson::Str(t)),
        jget(jtyped(t, seq![(k1, v1), (k2, v2), (k3, v3)]), k1) == Some(v1),
        jget(jtyped(t, seq![(k1, v1), (k2, v2), (k3, v3)]), k2) == Some(v2),
        jget(jtyped(t, seq![(k1, v1), (k2, v2), (k3, v3)]), k3) == Some(v3),
{
    let ms = seq![("type"@, SpecJson::Str(t))] + seq![(k1, v1), (k2, v2), (k3, v3)];
    assert(ms =~= seq![("type"@, SpecJson::Str(t)), (k1, v1), (k2, v2), (k3, v3)]);
    lemma_jget_at(ms, 0);
    lemma_jget_at(ms, 1);
    lemma_jget_at(ms, 2);
    lemma_jget_at(ms, 3);
}


/// Marshalling law: syntax that macro results can express, rendered as JSON and
/// read back in the same position, is the same syntax respanned at the call site.
pub proof fn lemma_roundtrip(n: SpecNode, m: ToJson, sp: Span)
    requires
        expressible(n, m),
    ensures
        from_json(to_json(n, m), reading(m), sp) == Conv::Done(respan(n, m, sp)),
    decreases n, 2nat,
{
    lemma_literals();
    match m {
        ToJson::Elem => {
            if n.kind != Kind::Hole {
                lemma_roundtrip(n.children[0], ToJson::Expr, sp);
            }
        },
        ToJson::Argument => {
            lemma_roundtrip(n.children[0], ToJson::Expr, sp);
        },
        ToJson::Param => {
            lemma_typed1("Identifier"@, "name"@, SpecJson::Str(name_of(n)));
        },
        ToJson::Prop => {
            let key = n.children[0];
            lemma_roundtrip(n.children[1], ToJson::Expr, sp);
            lemma_typed1("Identifier"@, "name"@, SpecJson::Str(name_of(key)));
            lemma_typed3("Property"@, "key"@, to_json(key, ToJson::Key), "value"@, to_json(n.children[1], ToJson::Expr),
                "kind"@, SpecJson::Str("init"@));
            assert(prop_key_name(to_json(n, ToJson::Prop)) == Some(name_of(key)));
        },
        ToJson::Stmt => lemma_roundtrip_stmt(n, sp),
        ToJson::Expr => lemma_roundtrip_expr(n, sp),
        _ => {},
    }
}

proof fn lemma_roundtrip_stmt(n: SpecNode, sp: Span)
    requires
        expressible(n, ToJson::Stmt),
    ensures
        from_json(to_json(n, ToJson::Stmt), FromJson::Stmt, sp) == Conv::Done(respan(n, ToJson::Stmt, sp)),
    decreases n, 1nat,
{
    lemma_literals();
    let v = to_json(n, ToJson::Stmt);
    if n.kind == Kind::SExpr {
        lemma_roundtrip(n.children[0], ToJson::Expr, sp);
        lemma_typed1("ExpressionStatement"@, "expression"@, to_json(n.children[0], ToJson::Expr));
    } else if n.kind == Kind::SBlock {
        lemma_roundtrip_stmts(n.children, sp);
        lemma_typed1("BlockStatement"@, "body"@, SpecJson::Array(to_json_list(n.children, ToJson::Stmt)));
    } else if n.kind == Kind::SReturn {
        lemma_roundtrip_return(n, sp);
    } else if n.kind == Kind::SVar {
        lemma_declaration_literals();
        let k = n.payload->Var_0;
        assert(var_kind_of(Some(var_kind_text(k))) == Some(k));
        lemma_roundtrip_declarators(n.children, sp);
        lemma_typed2("VariableDeclaration"@, "kind"@, SpecJson::Str(var_kind_text(k)),
            "declarations"@, SpecJson::Array(declarators_json(n.children)));
        assert(json_var_decl(v, sp) == Conv::Done(respan(n, ToJson::Stmt, sp)));
    } else {
        lemma_roundtrip(n.children[0], ToJson::Expr, sp);
        lemma_roundtrip(n.children[1], ToJson::Stmt, sp);
        if n.children[2].kind != Kind::Absent {
            lemma_roundtrip(n.children[2], ToJson::Stmt, sp);
        }
        let alt = if n.children[2].kind == Kind::Absent {
            SpecJson::Null
        } else {
            to_json(n.children[2], ToJson::Stmt)
        };
        lemma_typed3("IfStatement"@, "test"@, to_json(n.children[0], ToJson::Expr),
            "consequent"@, to_json(n.children[1], ToJson::Stmt), "alternate"@, alt);
    }
}

proof fn lemma_roundtrip_return(n: SpecNode, sp: Span)
    requires
        n.kind == Kind::SReturn,
        expressible(n, ToJson::Stmt),
    ensures
        from_json(to_json(n, ToJson::Stmt), FromJson::Stmt, sp) == Conv::Done(respan(n, ToJson::Stmt, sp)),
    decreases n, 0nat,
{
    lemma_literals();
    let c0 = n.children[0];
    let arg = if c0.kind == Kind::Absent {
        SpecJson::Null
    } else {
        lemma_roundtrip(c0, ToJson::Expr, sp);
        lemma_expr_json_object(c0);
        to_json(c0, ToJson::Expr)
    };
    let v = jtyped("ReturnStatement"@, seq![("argument"@, arg)]);
    assert(to_json(n, ToJson::Stmt) == v);
    lemma_typed1("ReturnStatement"@, "argument"@, arg);
    assert(jget_str(v, "type"@) == Some("ReturnStatement"@));
    assert(jget(v, "argument"@) == Some(arg));
    assert("ReturnStatement"@ != "BlockStatement"@);
    assert("ReturnStatement"@ != "IfStatement"@);
    assert("ReturnStatement"@ != "ExpressionStatement"@);
    assert("ReturnStatement"@ != "CallExpression"@);
    assert("ReturnStatement"@ != "VariableDeclaration"@) by {
        lemma_declaration_literals();
    }
    if c0.kind == Kind::Absent {
        assert(from_json(v, FromJson::Stmt, sp) == Conv::Done(snode(Kind::SReturn, sp, SpecPayload::Empty,
            seq![sleaf(Kind::Absent, dummy_span(), SpecPayload::Empty)])));
    } else {
        assert(arg != SpecJson::Null);
        assert(from_json(arg, FromJson::Expr, sp) == Conv::Done(respan(c0, ToJson::Expr, sp)));
        assert(from_json(v, FromJson::Stmt, sp) == Conv::Done(snode(Kind::SReturn, sp, SpecPayload::Empty,
            seq![respan(c0, ToJson::Expr, sp)])));
    }
}

/// The JSON of an expressible expression is an object.
proof fn lemma_expr_json_object(n: SpecNode)
    requires
        expressible(n, ToJson::Expr),
    ensures
        to_json(n, ToJson::Expr) is Object,
{
}

#[verifier::rlimit(60)]
proof fn lemma_roundtrip_object_literal(n: SpecNode, sp: Span)
    requires
        n.kind == Kind::EObject || n.kind == Kind::EBool || n.kind == Kind::ENull,
        expressible(n, ToJson::Expr),
    ensures
        from_json(to_json(n, ToJson::Expr), FromJson::Expr, sp) == Conv::Done(respan(n, ToJson::Expr, sp)),
    decreases n, 0nat,
{
    lemma_literals();
    if n.kind == Kind::EObject {
        lemma_roundtrip_list(n.children, ToJson::Prop, sp);
        lemma_typed1("ObjectExpression"@, "properties"@, SpecJson::Array(to_json_list(n.children, ToJson::Prop)));
    } else if n.kind == Kind::EBool {
        let b = n.payload->Bool_0;
        lemma_typed2("Literal"@, "value"@, SpecJson::Bool(b), "raw"@, SpecJson::Str(if b { "true"@ } else { "false"@ }));
    } else {
        lemma_typed2("Literal"@, "value"@, SpecJson::Null, "raw"@, SpecJson::Str("null"@));
    }
}

#[verifier::rlimit(60)]
proof fn lemma_roundtrip_expr(n: SpecNode, sp: Span)
    requires
        expressible(n, ToJson::Expr),
    ensures
        from_json(to_json(n, ToJson::Expr), FromJson::Expr, sp) == Conv::Done(respan(n, ToJson::Expr, sp)),
    decreases n, 1nat,
{
    lemma_literals();
    let v = to_json(n, ToJson::Expr);
    if n.kind == Kind::EIdent {
        lemma_typed1("Identifier"@, "name"@, SpecJson::Str(name_of(n)));
    } else if n.kind == Kind::ENum {
        let num = n.payload->Number_0;
        lemma_typed2("Literal"@, "value"@, SpecJson::Number(num), "raw"@, SpecJson::Str(num.text));
    } else if n.kind == Kind::EStr {
        let sv = n.payload->Str_0;
        lemma_typed2("Literal"@, "value"@, SpecJson::Str(sv), "raw"@, SpecJson::Str("\""@ + sv + "\""@));
    } else if n.kind == Kind::EArray {
        lemma_roundtrip_list(n.children, ToJson::Elem, sp);
        lemma_typed1("ArrayExpression"@, "elements"@, SpecJson::Array(to_json_list(n.children, ToJson::Elem)));
    } else if n.kind == Kind::EObject || n.kind == Kind::EBool || n.kind == Kind::ENull {
        lemma_roundtrip_object_literal(n, sp);
    } else if n.kind == Kind::EArrow {
        let params = n.children[0];
        let body = n.children[1];
        lemma_roundtrip_list(params.children, ToJson::Param, sp);
        let bj = if body.kind == Kind::SBlock {
            lemma_roundtrip(body, ToJson::Stmt, sp);
            to_json(body, ToJson::Stmt)
        } else {
            lemma_roundtrip(body, ToJson::Expr, sp);
            to_json(body, ToJson::Expr)
        };
        lemma_typed3("ArrowFunctionExpression"@, "params"@, to_json(params, ToJson::ParamList),
            "body"@, bj, "expression"@, SpecJson::Bool(body.kind != Kind::SBlock));
        assert(json_arrow(v, sp) == Conv::Done(respan(n, ToJson::Expr, sp)));
    } else if n.kind == Kind::EBin {
        lemma_roundtrip(n.children[0], ToJson::Expr, sp);
        lemma_roundtrip(n.children[1], ToJson::Expr, sp);
        lemma_typed3("BinaryExpression"@, "left"@, to_json(n.children[0], ToJson::Expr),
            "right"@, to_json(n.children[1], ToJson::Expr),
            "operator"@, SpecJson::Str(binary_op_text(n.payload->Binary_0)));
        assert(json_binary(v, sp) == Conv::Done(respan(n, ToJson::Expr, sp)));
    } else if n.kind == Kind::EUnary {
        lemma_roundtrip(n.children[0], ToJson::Expr, sp);
        lemma_typed3("UnaryExpression"@, "operator"@, SpecJson::Str(unary_op_text(n.payload->Unary_0)),
            "argument"@, to_json(n.children[0], ToJson::Expr), "prefix"@, SpecJson::Bool(true));
        assert(json_unary(v, sp) == Conv::Done(respan(n, ToJson::Expr, sp)));
    } else if n.kind == Kind::ECall {
        lemma_roundtrip(n.children[0], ToJson::Expr, sp);
        lemma_roundtrip_list(n.children[1].children, ToJson::Argument, sp);
        if n.children[0].kind == Kind::Super {
            assert(!expressible(n.children[0], ToJson::Expr));
        }
        assert(to_json(n.children[0], ToJson::Callee) == to_json(n.children[0], ToJson::Expr));
        assert(to_json(n.children[1], ToJson::ArgList)
            == SpecJson::Array(to_json_list(n.children[1].children, ToJson::Argument)));
        lemma_typed2("CallExpression"@, "callee"@, to_json(n.children[0], ToJson::Callee),
            "arguments"@, to_json(n.children[1], ToJson::ArgList));
        assert(json_call(v, sp) == Conv::Done(respan(n, ToJson::Expr, sp)));
    } else if n.kind == Kind::EMember {
        lemma_roundtrip(n.children[0], ToJson::Expr, sp);
        let prop = n.children[1];
        if prop.kind == Kind::PropName {
            lemma_typed1("Identifier"@, "name"@, SpecJson::Str(name_of(prop)));
        } else {
            lemma_roundtrip(prop.children[0], ToJson::Expr, sp);
        }
        lemma_typed3("MemberExpression"@, "object"@, to_json(n.children[0], ToJson::Expr),
            "property"@, to_json(prop, ToJson::MemberProp),
            "computed"@, SpecJson::Bool(prop.kind == Kind::Computed));
        assert(json_member(v, sp) == Conv::Done(respan(n, ToJson::Expr, sp)));
    } else {
        lemma_roundtrip(n.children[0], ToJson::Expr, sp);
        lemma_typed1("ParenExpression"@, "expression"@, to_json(n.children[0], ToJson::Expr));
    }
}

proof fn lemma_roundtrip_declarators(s: Seq<SpecNode>, sp: Span)
    requires
        declarators_expressible(s),
    ensures
        json_declarators(declarators_json(s), sp) == Conv::Done(respan_declarators(s, sp)),
    decreases s,
{
    if s.len() > 0 {
        lemma_literals();
        lemma_declaration_literals();
        lemma_roundtrip_declarators(s.drop_last(), sp);
        let d = s.last();
        let id = d.children[0];
        let init = if d.children[1].kind == Kind::Absent {
            SpecJson::Null
        } else {
            lemma_roundtrip(d.children[1], ToJson::Expr, sp);
            to_json(d.children[1], ToJson::Expr)
        };
        lemma_typed1("Identifier"@, "name"@, SpecJson::Str(name_of(id)));
        lemma_typed2("VariableDeclarator"@, "id"@, to_json(id, ToJson::Param), "init"@, init);
        assert(declarator_name(declarator_json(d)) == Some(name_of(id)));
        assert(json_declarator(declarator_json(d), sp) == Conv::Done(respan_declarators(s, sp).last()));
        assert(declarators_json(s).drop_last() =~= declarators_json(s.drop_last()));
        assert(respan_declarators(s, sp).drop_last() =~= respan_declarators(s.drop_last(), sp));
    }
}

proof fn lemma_roundtrip_list(s: Seq<SpecNode>, m: ToJson, sp: Span)
    requires
        all_expressible(s, m),
    ensures
        from_json_list(to_json_list(s, m), reading(m), sp) == Conv::Done(respan_list(s, m, sp)),
    decreases s,
{
    if s.len() > 0 {
        lemma_roundtrip_list(s.drop_last(), m, sp);
        lemma_roundtrip(s.last(), m, sp);
        assert(to_json_list(s, m).drop_last() =~= to_json_list(s.drop_last(), m));
    }
}

proof fn lemma_roundtrip_stmts(s: Seq<SpecNode>, sp: Span)
    requires
        all_expressible(s, ToJson::Stmt),
    ensures
        from_json_stmts(to_json_list(s, ToJson::Stmt), sp) == Conv::Done(respan_list(s, ToJson::Stmt, sp)),
    decreases s,
{
    if s.len() > 0 {
        lemma_roundtrip_stmts(s.drop_last(), sp);
        lemma_roundtrip(s.last(), ToJson::Stmt, sp);
        assert(to_json_list(s, ToJson::Stmt).drop_last() =~= to_json_list(s.drop_last(), ToJson::Stmt));
    }
}

/// The JSON macro code receives for an expression has ESTree's shape: its node
/// type, and each part under ESTree's key (`left`, `right` and the operator's
/// own token for a binary expression, `callee` and `arguments` for a call, and
/// so on), each part the JSON of the matching child.
pub proof fn lemma_expression_json_shape(n: SpecNode)
    ensures
        ({
            let v = to_json(n, ToJson::Expr);
            &&& n.kind == Kind::EIdent ==> jget(v, "type"@) == Some(SpecJson::Str("Identifier"@))
                && jget(v, "name"@) == Some(SpecJson::Str(name_of(n)))
            &&& (n.kind == Kind::ENum && n.payload is Number) ==> jget(v, "type"@) == Some(SpecJson::Str("Literal"@))
                && jget(v, "value"@) == Some(SpecJson::Number(n.payload->Number_0))
            &&& (n.kind == Kind::EBool && n.payload is Bool) ==> jget(v, "type"@) == Some(SpecJson::Str("Literal"@))
                && jget(v, "value"@) == Some(SpecJson::Bool(n.payload->Bool_0))
            &&& n.kind == Kind::ENull ==> jget(v, "type"@) == Some(SpecJson::Str("Literal"@))
                && jget(v, "value"@) == Some(SpecJson::Null)
            &&& (n.kind == Kind::EBin && n.children.len() >= 2 && n.payload is Binary) ==>
                jget(v, "type"@) == Some(SpecJson::Str("BinaryExpression"@))
                && jget(v, "left"@) == Some(to_json(n.children[0], ToJson::Expr))
                && jget(v, "right"@) == Some(to_json(n.children[1], ToJson::Expr))
                && jget(v, "operator"@) == Some(SpecJson::Str(binary_op_text(n.payload->Binary_0)))
            &&& (n.kind == Kind::EUnary && n.children.len() >= 1 && n.payload is Unary) ==>
                jget(v, "type"@) == Some(SpecJson::Str("UnaryExpression"@))
                && jget(v, "operator"@) == Some(SpecJson::Str(unary_op_text(n.payload->Unary_0)))
                && jget(v, "argument"@) == Some(to_json(n.children[0], ToJson::Expr))
            &&& (n.kind == Kind::ECall && n.children.len() >= 2) ==>
                jget(v, "type"@) == Some(SpecJson::Str("CallExpression"@))
                && jget(v, "callee"@) == Some(to_json(n.children[0], ToJson::Callee))
                && jget(v, "arguments"@) == Some(SpecJson::Array(to_json_list(n.children[1].children, ToJson::Argument)))
            &&& (n.kind == Kind::EMember && n.children.len() >= 2) ==>
                jget(v, "type"@) == Some(SpecJson::Str("MemberExpression"@))
                && jget(v, "object"@) == Some(to_json(n.children[0], ToJson::Expr))
                && jget(v, "property"@) == Some(to_json(n.children[1], ToJson::MemberProp))
                && jget(v, "computed"@) == Some(SpecJson::Bool(n.children[1].kind == Kind::Computed))
        }),
{
    lemma_literals();
    if n.kind == Kind::EIdent {
        lemma_typed1("Identifier"@, "name"@, SpecJson::Str(name_of(n)));
    } else if n.kind == Kind::ENum && n.payload is Number {
        let num = n.payload->Number_0;
        lemma_typed2("Literal"@, "value"@, SpecJson::Number(num), "raw"@, SpecJson::Str(num.text));
    } else if n.kind == Kind::EBool && n.payload is Bool {
        let b = n.payload->Bool_0;
        lemma_typed2("Literal"@, "value"@, SpecJson::Bool(b), "raw"@, SpecJson::Str(if b { "true"@ } else { "false"@ }));
    } else if n.kind == Kind::ENull {
        lemma_typed2("Literal"@, "value"@, SpecJson::Null, "raw"@, SpecJson::Str("null"@));
    } else if n.kind == Kind::EBin && n.children.len() >= 2 && n.payload is Binary {
        lemma_typed3("BinaryExpression"@, "left"@, to_json(n.children[0], ToJson::Expr),
            "right"@, to_json(n.children[1], ToJson::Expr),
            "operator"@, SpecJson::Str(binary_op_text(n.payload->Binary_0)));
    } else if n.kind == Kind::EUnary && n.children.len() >= 1 && n.payload is Unary {
        lemma_typed3("UnaryExpression"@, "operator"@, SpecJson::Str(unary_op_text(n.payload->Unary_0)),
            "argument"@, to_json(n.children[0], ToJson::Expr), "prefix"@, SpecJson::Bool(true));
    } else if n.kind == Kind::ECall && n.children.len() >= 2 {
        assert(to_json(n.children[1], ToJson::ArgList)
            == SpecJson::Array(to_json_list(n.children[1].children, ToJson::Argument)));
        lemma_typed2("CallExpression"@, "callee"@, to_json(n.children[0], ToJson::Callee),
            "arguments"@, to_json(n.children[1], ToJson::ArgList));
    } else if n.kind == Kind::EMember && n.children.len() >= 2 {
        lemma_typed3("MemberExpression"@, "object"@, to_json(n.children[0], ToJson::Expr),
            "property"@, to_json(n.children[1], ToJson::MemberProp),
            "computed"@, SpecJson::Bool(n.children[1].kind == Kind::Computed));
    }
}

/// The JSON macro code receives for a statement has ESTree's shape: an
/// expression statement holds its `expression`, a `return` its `argument`
/// (`null` when it has none), an `if` its `test`, `consequent` and `alternate`
/// (`null` when it has none).
pub proof fn lemma_statement_json_shape(n: SpecNode)
    ensures
        ({
            let v = to_json(n, ToJson::Stmt);
            &&& (n.kind == Kind::SExpr && n.children.len() > 0) ==>
                jget(v, "type"@) == Some(SpecJson::Str("ExpressionStatement"@))
                && jget(v, "expression"@) == Some(to_json(n.children[0], ToJson::Expr))
            &&& (n.kind == Kind::SReturn && n.children.len() > 0) ==>
                jget(v, "type"@) == Some(SpecJson::Str("ReturnStatement"@))
                && jget(v, "argument"@) == Some(if n.children[0].kind == Kind::Absent {
                    SpecJson::Null
                } else {
                    to_json(n.children[0], ToJson::Expr)
                })
            &&& (n.kind == Kind::SIf && n.children.len() >= 3) ==>
                jget(v, "type"@) == Some(SpecJson::Str("IfStatement"@))
                && jget(v, "test"@) == Some(to_json(n.children[0], ToJson::Expr))
                && jget(v, "consequent"@) == Some(to_json(n.children[1], ToJson::Stmt))
                && jget(v, "alternate"@) == Some(if n.children[2].kind == Kind::Absent {
                    SpecJson::Null
                } else {
                    to_json(n.children[2], ToJson::Stmt)
                })
        }),
{
    lemma_literals();
    if n.kind == Kind::SExpr && n.children.len() > 0 {
        lemma_typed1("ExpressionStatement"@, "expression"@, to_json(n.children[0], ToJson::Expr));
    } else if n.kind == Kind::SReturn && n.children.len() > 0 {
        let arg = if n.children[0].kind == Kind::Absent { SpecJson::Null } else { to_json(n.children[0], ToJson::Expr) };
        lemma_typed1("ReturnStatement"@, "argument"@, arg);
    } else if n.kind == Kind::SIf && n.children.len() >= 3 {
        let alt = if n.children[2].kind == Kind::Absent { SpecJson::Null } else { to_json(n.children[2], ToJson::Stmt) };
        lemma_typed3("IfStatement"@, "test"@, to_json(n.children[0], ToJson::Expr),
            "consequent"@, to_json(n.children[1], ToJson::Stmt), "alternate"@, alt);
    }
}

} // verus!
