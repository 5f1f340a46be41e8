//! Conversion of syntax to the ESTree-like JSON that macro code receives, and of
//! the JSON that macro code returns back to syntax.
use vstd::prelude::*;
use crate::ast::{
    VarKind, Kind, Node, Payload, SpecNode, SpecPayload, Span, BinaryOp, UnaryOp, JsNumber, snode, sleaf,
    dummy_span, dummy, nodes_view, view_nodes, view_node, lemma_view_nodes, make, leaf, one, two,
    three, push_node, };
use crate::json::{
    JsonValue, Member, SpecJson, jget, jget_str, jas_array, jas_bool, get, get_str, jsons_view,
    view_jsons, lemma_view_jsons, push_json, push_member, view_members, lemma_jget_decreases,
    view_json,
};
use crate::text::{owned, concat};

verus! {

/// The text of an operator, as `BinaryOp::as_str` gives it.
pub open spec fn binary_op_text(op: BinaryOp) -> Seq<char> {
    match op {
        BinaryOp::EqEq => "=="@,
        BinaryOp::NotEq => "!="@,
        BinaryOp::EqEqEq => "==="@,
        BinaryOp::NotEqEq => "!=="@,
        BinaryOp::Lt => "<"@,
        BinaryOp::LtEq => "<="@,
        BinaryOp::Gt => ">"@,
        BinaryOp::GtEq => ">="@,
        BinaryOp::LShift => "<<"@,
        BinaryOp::RShift => ">>"@,
        BinaryOp::ZeroFillRShift => ">>>"@,
        BinaryOp::Add => "+"@,
        BinaryOp::Sub => "-"@,
        BinaryOp::Mul => "*"@,
        BinaryOp::Div => "/"@,
        BinaryOp::Mod => "%"@,
        BinaryOp::BitOr => "|"@,
        BinaryOp::BitXor => "^"@,
        BinaryOp::BitAnd => "&"@,
        BinaryOp::LogicalOr => "||"@,
        BinaryOp::LogicalAnd => "&&"@,
        BinaryOp::In => "in"@,
        BinaryOp::InstanceOf => "instanceof"@,
        BinaryOp::Exp => "**"@,
        BinaryOp::NullishCoalescing => "??"@,
    }
}

pub fn binary_op_str(op: BinaryOp) -> (s: &'static str)
    ensures
        s@ == binary_op_text(op),
{
    match op {
        BinaryOp::EqEq => "==",
        BinaryOp::NotEq => "!=",
        BinaryOp::EqEqEq => "===",
        BinaryOp::NotEqEq => "!==",
        BinaryOp::Lt => "<",
        BinaryOp::LtEq => "<=",
        BinaryOp::Gt => ">",
        BinaryOp::GtEq => ">=",
        BinaryOp::LShift => "<<",
        BinaryOp::RShift => ">>",
        BinaryOp::ZeroFillRShift => ">>>",
        BinaryOp::Add => "+",
        BinaryOp::Sub => "-",
        BinaryOp::Mul => "*",
        BinaryOp::Div => "/",
        BinaryOp::Mod => "%",
        BinaryOp::BitOr => "|",
        BinaryOp::BitXor => "^",
        BinaryOp::BitAnd => "&",
        BinaryOp::LogicalOr => "||",
        BinaryOp::LogicalAnd => "&&",
        BinaryOp::In => "in",
        BinaryOp::InstanceOf => "instanceof",
        BinaryOp::Exp => "**",
        BinaryOp::NullishCoalescing => "??",
    }
}

pub open spec fn unary_op_text(op: UnaryOp) -> Seq<char> {
    match op {
        UnaryOp::Minus => "-"@,
        UnaryOp::Plus => "+"@,
        UnaryOp::Bang => "!"@,
        UnaryOp::Tilde => "~"@,
        UnaryOp::TypeOf => "typeof"@,
        UnaryOp::Void => "void"@,
        UnaryOp::Delete => "delete"@,
    }
}

pub fn unary_op_str(op: UnaryOp) -> (s: &'static str)
    ensures
        s@ == unary_op_text(op),
{
    match op {
        UnaryOp::Minus => "-",
        UnaryOp::Plus => "+",
        UnaryOp::Bang => "!",
        UnaryOp::Tilde => "~",
        UnaryOp::TypeOf => "typeof",
        UnaryOp::Void => "void",
        UnaryOp::Delete => "delete",
    }
}

/// The binary operator an operator text stands for.
pub open spec fn binary_op_of(t: Seq<char>) -> Option<BinaryOp> {
    if t == "==="@ {
        Some(BinaryOp::EqEqEq)
    } else if t == "=="@ {
        Some(BinaryOp::EqEq)
    } else if t == "+"@ {
        Some(BinaryOp::Add)
    } else if t == "-"@ {
        Some(BinaryOp::Sub)
    } else if t == "*"@ {
        Some(BinaryOp::Mul)
    } else if t == "/"@ {
        Some(BinaryOp::Div)
    } else if t == ">"@ {
        Some(BinaryOp::Gt)
    } else if t == "<"@ {
        Some(BinaryOp::Lt)
    } else if t == "!="@ {
        Some(BinaryOp::NotEq)
    } else if t == "!=="@ {
        Some(BinaryOp::NotEqEq)
    } else if t == "<="@ {
        Some(BinaryOp::LtEq)
    } else if t == ">="@ {
        Some(BinaryOp::GtEq)
    } else if t == "<<"@ {
        Some(BinaryOp::LShift)
    } else if t == ">>"@ {
        Some(BinaryOp::RShift)
    } else if t == ">>>"@ {
        Some(BinaryOp::ZeroFillRShift)
    } else if t == "%"@ {
        Some(BinaryOp::Mod)
    } else if t == "|"@ {
        Some(BinaryOp::BitOr)
    } else if t == "^"@ {
        Some(BinaryOp::BitXor)
    } else if t == "&"@ {
        Some(BinaryOp::BitAnd)
    } else if t == "||"@ {
        Some(BinaryOp::LogicalOr)
    } else if t == "&&"@ {
        Some(BinaryOp::LogicalAnd)
    } else if t == "in"@ {
        Some(BinaryOp::In)
    } else if t == "instanceof"@ {
        Some(BinaryOp::InstanceOf)
    } else if t == "**"@ {
        Some(BinaryOp::Exp)
    } else if t == "??"@ {
        Some(BinaryOp::NullishCoalescing)
    } else {
        None
    }
}

/// The unary operators that macro results may use.
pub open spec fn unary_op_of(t: Seq<char>) -> Option<UnaryOp> {
    if t == "!"@ {
        Some(UnaryOp::Bang)
    } else if t == "~"@ {
        Some(UnaryOp::Tilde)
    } else if t == "-"@ {
        Some(UnaryOp::Minus)
    } else if t == "+"@ {
        Some(UnaryOp::Plus)
    } else {
        None
    }
}

fn binary_op_parse(t: &String) -> (r: Option<BinaryOp>)
    ensures
        r == binary_op_of(t@),
{
    if *t == owned("===") {
        Some(BinaryOp::EqEqEq)
    } else if *t == owned("==") {
        Some(BinaryOp::EqEq)
    } else if *t == owned("+") {
        Some(BinaryOp::Add)
    } else if *t == owned("-") {
        Some(BinaryOp::Sub)
    } else if *t == owned("*") {
        Some(BinaryOp::Mul)
    } else if *t == owned("/") {
        Some(BinaryOp::Div)
    } else if *t == owned(">") {
        Some(BinaryOp::Gt)
    } else if *t == owned("<") {
        Some(BinaryOp::Lt)
    } else if *t == owned("!=") {
        Some(BinaryOp::NotEq)
    } else if *t == owned("!==") {
        Some(BinaryOp::NotEqEq)
    } else if *t == owned("<=") {
        Some(BinaryOp::LtEq)
    } else if *t == owned(">=") {
        Some(BinaryOp::GtEq)
    } else if *t == owned("<<") {
        Some(BinaryOp::LShift)
    } else if *t == owned(">>") {
        Some(BinaryOp::RShift)
    } else if *t == owned(">>>") {
        Some(BinaryOp::ZeroFillRShift)
    } else if *t == owned("%") {
        Some(BinaryOp::Mod)
    } else if *t == owned("|") {
        Some(BinaryOp::BitOr)
    } else if *t == owned("^") {
        Some(BinaryOp::BitXor)
    } else if *t == owned("&") {
        Some(BinaryOp::BitAnd)
    } else if *t == owned("||") {
        Some(BinaryOp::LogicalOr)
    } else if *t == owned("&&") {
        Some(BinaryOp::LogicalAnd)
    } else if *t == owned("in") {
        Some(BinaryOp::In)
    } else if *t == owned("instanceof") {
        Some(BinaryOp::InstanceOf)
    } else if *t == owned("**") {
        Some(BinaryOp::Exp)
    } else if *t == owned("??") {
        Some(BinaryOp::NullishCoalescing)
    } else {
        None
    }
}

/// The keyword of a declaration kind.
pub open spec fn var_kind_text(k: VarKind) -> Seq<char> {
    match k {
        VarKind::Var => "var"@,
        VarKind::Let => "let"@,
        VarKind::Const => "const"@,
    }
}

pub open spec fn var_kind_of(t: Option<Seq<char>>) -> Option<VarKind> {
    match t {
        Some(k) => if k == "var"@ {
            Some(VarKind::Var)
        } else if k == "let"@ {
            Some(VarKind::Let)
        } else if k == "const"@ {
            Some(VarKind::Const)
        } else {
            None
        },
        None => None,
    }
}

pub fn var_kind_str(k: VarKind) -> (s: &'static str)
    ensures
        s@ == var_kind_text(k),
{
    match k {
        VarKind::Var => "var",
        VarKind::Let => "let",
        VarKind::Const => "const",
    }
}

fn var_kind_parse(t: Option<&String>) -> (r: Option<VarKind>)
    ensures
        r == var_kind_of(match t { Some(s) => Some(s@), None => None }),
{
    match t {
        Some(k) => if *k == owned("var") {
            Some(VarKind::Var)
        } else if *k == owned("let") {
            Some(VarKind::Let)
        } else if *k == owned("const") {
            Some(VarKind::Const)
        } else {
            None
        },
        None => None,
    }
}

fn unary_op_parse(t: &String) -> (r: Option<UnaryOp>)
    ensures
        r == unary_op_of(t@),
{
    if *t == owned("!") {
        Some(UnaryOp::Bang)
    } else if *t == owned("~") {
        Some(UnaryOp::Tilde)
    } else if *t == owned("-") {
        Some(UnaryOp::Minus)
    } else if *t == owned("+") {
        Some(UnaryOp::Plus)
    } else {
        None
    }
}

// ---------------------------------------------------------------------------
// Syntax to JSON

/// The name carried by an identifier-like node.
pub open spec fn name_of(n: SpecNode) -> Seq<char> {
    match n.payload {
        SpecPayload::Name(s) => s,
        _ => Seq::empty(),
    }
}

pub open spec fn jtyped(t: Seq<char>, rest: Seq<(Seq<char>, SpecJson)>) -> SpecJson {
    SpecJson::Object(seq![("type"@, SpecJson::Str(t))] + rest)
}

pub open spec fn jident(name: Seq<char>) -> SpecJson {
    jtyped("Identifier"@, seq![("name"@, SpecJson::Str(name))])
}

pub open spec fn junsupported() -> SpecJson {
    jtyped("Unsupported"@, Seq::empty())
}

/// The name of a kind of node.
pub open spec fn kind_text(k: Kind) -> Seq<char> {
    match k {
        Kind::Module => "Module"@,
        Kind::Ident => "Ident"@,
        Kind::EIdent => "EIdent"@,
        Kind::ENum => "ENum"@,
        Kind::EStr => "EStr"@,
        Kind::EBool => "EBool"@,
        Kind::ENull => "ENull"@,
        Kind::EArray => "EArray"@,
        Kind::EObject => "EObject"@,
        Kind::EArrow => "EArrow"@,
        Kind::EFn => "EFn"@,
        Kind::EBin => "EBin"@,
        Kind::EUnary => "EUnary"@,
        Kind::ECall => "ECall"@,
        Kind::EMember => "EMember"@,
        Kind::EParen => "EParen"@,
        Kind::EAssign => "EAssign"@,
        Kind::Absent => "Absent"@,
        Kind::Hole => "Hole"@,
        Kind::Arg => "Arg"@,
        Kind::KeyValue => "KeyValue"@,
        Kind::PropName => "PropName"@,
        Kind::Computed => "Computed"@,
        Kind::PIdent => "PIdent"@,
        Kind::PDefault => "PDefault"@,
        Kind::Params => "Params"@,
        Kind::Args => "Args"@,
        Kind::Declarator => "Declarator"@,
        Kind::SExpr => "SExpr"@,
        Kind::SBlock => "SBlock"@,
        Kind::SIf => "SIf"@,
        Kind::SReturn => "SReturn"@,
        Kind::STry => "STry"@,
        Kind::Catch => "Catch"@,
        Kind::SWhile => "SWhile"@,
        Kind::SContinue => "SContinue"@,
        Kind::SLabeled => "SLabeled"@,
        Kind::SThrow => "SThrow"@,
        Kind::PRest => "PRest"@,
        Kind::SVar => "SVar"@,
        Kind::SFnDecl => "SFnDecl"@,
        Kind::Import => "Import"@,
        Kind::ExportDecl => "ExportDecl"@,
        Kind::ModuleDecl => "ModuleDecl"@,
        Kind::Super => "Super"@,
        Kind::StmtList => "StmtList"@,
        Kind::Other => "Other"@,
    }
}

fn kind_str(k: Kind) -> (s: &'static str)
    ensures
        s@ == kind_text(k),
{
    match k {
        Kind::Module => "Module",
        Kind::Ident => "Ident",
        Kind::EIdent => "EIdent",
        Kind::ENum => "ENum",
        Kind::EStr => "EStr",
        Kind::EBool => "EBool",
        Kind::ENull => "ENull",
        Kind::EArray => "EArray",
        Kind::EObject => "EObject",
        Kind::EArrow => "EArrow",
        Kind::EFn => "EFn",
        Kind::EBin => "EBin",
        Kind::EUnary => "EUnary",
        Kind::ECall => "ECall",
        Kind::EMember => "EMember",
        Kind::EParen => "EParen",
        Kind::EAssign => "EAssign",
        Kind::Absent => "Absent",
        Kind::Hole => "Hole",
        Kind::Arg => "Arg",
        Kind::KeyValue => "KeyValue",
        Kind::PropName => "PropName",
        Kind::Computed => "Computed",
        Kind::PIdent => "PIdent",
        Kind::PDefault => "PDefault",
        Kind::Params => "Params",
        Kind::Args => "Args",
        Kind::Declarator => "Declarator",
        Kind::SExpr => "SExpr",
        Kind::SBlock => "SBlock",
        Kind::SIf => "SIf",
        Kind::SReturn => "SReturn",
        Kind::STry => "STry",
        Kind::Catch => "Catch",
        Kind::SWhile => "SWhile",
        Kind::SContinue => "SContinue",
        Kind::SLabeled => "SLabeled",
        Kind::SThrow => "SThrow",
        Kind::PRest => "PRest",
        Kind::SVar => "SVar",
        Kind::SFnDecl => "SFnDecl",
        Kind::Import => "Import",
        Kind::ExportDecl => "ExportDecl",
        Kind::ModuleDecl => "ModuleDecl",
        Kind::Super => "Super",
        Kind::StmtList => "StmtList",
        Kind::Other => "Other",
    }
}

/// What describes a node that has no JSON shape: the text that describes the
/// construct as written, which the node carries (an opaque construct, a
/// function, or a node of a kind that carries nothing else), else, for a node
/// that was not written in the source, the name of its kind.
pub open spec fn detail_of(n: SpecNode) -> Seq<char> {
    match n.payload {
        SpecPayload::Handle(_, d) => d,
        SpecPayload::Text(d) => d,
        SpecPayload::Func { text, .. } => text,
        _ => kind_text(n.kind),
    }
}

/// The JSON of a construct that has no JSON shape, with what describes it.
pub open spec fn junsupported_detail(n: SpecNode) -> SpecJson {
    jtyped("Unsupported"@, seq![("detail"@, SpecJson::Str(detail_of(n)))])
}

fn unsupported_json(n: &Node) -> (r: JsonValue)
    ensures
        r@ == junsupported_detail(n@),
{
    let d = match &n.payload {
        Payload::Handle(_, d) => d.clone(),
        Payload::Text(d) => d.clone(),
        Payload::Func { text, .. } => text.clone(),
        _ => owned(kind_str(n.kind)),
    };
    typed1("Unsupported", "detail", JsonValue::Str(d))
}

/// The position a node is rendered from: what it stands for there decides its JSON shape.
#[derive(Clone, Copy)]
pub enum ToJson {
    Expr,
    Stmt,
    /// An element of an array literal.
    Elem,
    /// A property of an object literal.
    Prop,
    /// The key of a `key: value` property.
    Key,
    /// A function parameter.
    Param,
    /// A call argument.
    Argument,
    /// The property of a member expression.
    MemberProp,
    /// The callee of a call.
    Callee,
    /// A parameter list.
    ParamList,
    /// An argument list.
    ArgList,
}

pub open spec fn to_json_rank(m: ToJson) -> nat {
    match m {
        ToJson::Expr => 0,
        _ => 1,
    }
}

/// The JSON rendering of a node in a given position.
pub open spec fn to_json(n: SpecNode, m: ToJson) -> SpecJson
    decreases n, to_json_rank(m),
{
    match m {
        ToJson::Elem => if n.kind == Kind::Arg && n.children.len() > 0 {
            to_json(n.children[0], ToJson::Expr)
        } else {
            SpecJson::Null
        },
        ToJson::Argument => if n.kind == Kind::Arg && n.children.len() > 0 {
            to_json(n.children[0], ToJson::Expr)
        } else {
            junsupported()
        },
        ToJson::Prop => if n.kind == Kind::KeyValue && n.children.len() >= 2 {
            jtyped("Property"@, seq![
                ("key"@, to_json(n.children[0], ToJson::Key)),
                ("value"@, to_json(n.children[1], ToJson::Expr)),
                ("kind"@, SpecJson::Str("init"@)),
            ])
        } else {
            SpecJson::Null
        },
        ToJson::Key => if n.kind == Kind::PropName {
            jident(name_of(n))
        } else {
            SpecJson::Null
        },
        ToJson::Param => if n.kind == Kind::PIdent {
            jident(name_of(n))
        } else {
            SpecJson::Null
        },
        ToJson::MemberProp => if n.kind == Kind::PropName {
            jident(name_of(n))
        } else if n.kind == Kind::Computed && n.children.len() > 0 {
            to_json(n.children[0], ToJson::Expr)
        } else {
            junsupported()
        },
        ToJson::Callee => if n.kind == Kind::Super {
            SpecJson::Null
        } else {
            to_json(n, ToJson::Expr)
        },
        ToJson::ParamList => SpecJson::Array(to_json_list(n.children, ToJson::Param)),
        ToJson::ArgList => SpecJson::Array(to_json_list(n.children, ToJson::Argument)),
        ToJson::Stmt => if n.kind == Kind::SExpr && n.children.len() > 0 {
            jtyped("ExpressionStatement"@, seq![("expression"@, to_json(n.children[0], ToJson::Expr))])
        } else if n.kind == Kind::SBlock {
            jtyped("BlockStatement"@, seq![("body"@, SpecJson::Array(to_json_list(n.children, ToJson::Stmt)))])
        } else if n.kind == Kind::SIf && n.children.len() >= 3 {
            jtyped("IfStatement"@, seq![
                ("test"@, to_json(n.children[0], ToJson::Expr)),
                ("consequent"@, to_json(n.children[1], ToJson::Stmt)),
                ("alternate"@, if n.children[2].kind == Kind::Absent {
                    SpecJson::Null
                } else {
                    to_json(n.children[2], ToJson::Stmt)
                }),
            ])
        } else if n.kind == Kind::SReturn && n.children.len() > 0 {
            jtyped("ReturnStatement"@, seq![("argument"@, if n.children[0].kind == Kind::Absent {
                SpecJson::Null
            } else {
                to_json(n.children[0], ToJson::Expr)
            })])
        } else if n.kind == Kind::SVar && n.payload is Var {
            jtyped("VariableDeclaration"@, seq![
                ("kind"@, SpecJson::Str(var_kind_text(n.payload->Var_0))),
                ("declarations"@, SpecJson::Array(declarators_json(n.children))),
            ])
        } else {
            junsupported_detail(n)
        },
        ToJson::Expr => if n.kind == Kind::EIdent {
            jident(name_of(n))
        } else if n.kind == Kind::ENum && n.payload is Number {
            let num = n.payload->Number_0;
            jtyped("Literal"@, seq![("value"@, SpecJson::Number(num)), ("raw"@, SpecJson::Str(num.text))])
        } else if n.kind == Kind::EStr && n.payload is Str {
            let s = n.payload->Str_0;
            jtyped("Literal"@, seq![("value"@, SpecJson::Str(s)), ("raw"@, SpecJson::Str("\""@ + s + "\""@))])
        } else if n.kind == Kind::EArray {
            jtyped("ArrayExpression"@, seq![("elements"@, SpecJson::Array(to_json_list(n.children, ToJson::Elem)))])
        } else if n.kind == Kind::EObject {
            jtyped("ObjectExpression"@, seq![("properties"@, SpecJson::Array(to_json_list(n.children, ToJson::Prop)))])
        } else if n.kind == Kind::EArrow && n.children.len() >= 2 {
            let body = n.children[1];
            jtyped("ArrowFunctionExpression"@, seq![
                ("params"@, to_json(n.children[0], ToJson::ParamList)),
                ("body"@, if body.kind == Kind::SBlock {
                    to_json(body, ToJson::Stmt)
                } else {
                    to_json(body, ToJson::Expr)
                }),
                ("expression"@, SpecJson::Bool(body.kind != Kind::SBlock)),
            ])
        } else if n.kind == Kind::EBin && n.children.len() >= 2 && n.payload is Binary {
            jtyped("BinaryExpression"@, seq![
                ("left"@, to_json(n.children[0], ToJson::Expr)),
                ("right"@, to_json(n.children[1], ToJson::Expr)),
                ("operator"@, SpecJson::Str(binary_op_text(n.payload->Binary_0))),
            ])
        } else if n.kind == Kind::ECall && n.children.len() >= 2 {
            jtyped("CallExpression"@, seq![
                ("callee"@, to_json(n.children[0], ToJson::Callee)),
                ("arguments"@, to_json(n.children[1], ToJson::ArgList)),
            ])
        } else if n.kind == Kind::EMember && n.children.len() >= 2 {
            jtyped("MemberExpression"@, seq![
                ("object"@, to_json(n.children[0], ToJson::Expr)),
                ("property"@, to_json(n.children[1], ToJson::MemberProp)),
                ("computed"@, SpecJson::Bool(n.children[1].kind == Kind::Computed)),
            ])
        } else if n.kind == Kind::EUnary && n.children.len() >= 1 && n.payload is Unary {
            jtyped("UnaryExpression"@, seq![
                ("operator"@, SpecJson::Str(unary_op_text(n.payload->Unary_0))),
                ("argument"@, to_json(n.children[0], ToJson::Expr)),
                ("prefix"@, SpecJson::Bool(true)),
            ])
        } else if n.kind == Kind::EParen && n.children.len() >= 1 {
            jtyped("ParenExpression"@, seq![("expression"@, to_json(n.children[0], ToJson::Expr))])
        } else if n.kind == Kind::EBool && n.payload is Bool {
            let b = n.payload->Bool_0;
            jtyped("Literal"@, seq![("value"@, SpecJson::Bool(b)), ("raw"@, SpecJson::Str(if b { "true"@ } else { "false"@ }))])
        } else if n.kind == Kind::ENull {
            jtyped("Literal"@, seq![("value"@, SpecJson::Null), ("raw"@, SpecJson::Str("null"@))])
        } else {
            junsupported_detail(n)
        },
    }
}

/// The JSON of the declarators of a variable declaration.
pub open spec fn declarators_json(s: Seq<SpecNode>) -> Seq<SpecJson>
    decreases s, 0nat,
{
    if s.len() == 0 {
        Seq::empty()
    } else {
        declarators_json(s.drop_last()).push(declarator_json(s.last()))
    }
}

/// The JSON of one declarator: its identifier and its initializer (`null` when none).
pub open spec fn declarator_json(d: SpecNode) -> SpecJson
    decreases d, 0nat,
{
    if d.kind == Kind::Declarator && d.children.len() >= 2 {
        jtyped("VariableDeclarator"@, seq![
            ("id"@, to_json(d.children[0], ToJson::Param)),
            ("init"@, if d.children[1].kind == Kind::Absent {
                SpecJson::Null
            } else {
                to_json(d.children[1], ToJson::Expr)
            }),
        ])
    } else {
        SpecJson::Null
    }
}

pub open spec fn to_json_list(s: Seq<SpecNode>, m: ToJson) -> Seq<SpecJson>
    decreases s,
{
    if s.len() == 0 {
        Seq::empty()
    } else {
        to_json_list(s.drop_last(), m).push(to_json(s.last(), m))
    }
}

pub fn typed0(t: &str) -> (r: JsonValue)
    ensures
        r@ == jtyped(t@, Seq::empty()),
{
    let mut ms: Vec<Member> = Vec::new();
    push_member(&mut ms, "type", JsonValue::Str(owned(t)));
    let r = JsonValue::Object(ms);
    assert(view_members(ms@) =~= seq![("type"@, SpecJson::Str(t@))] + Seq::empty());
    r
}

pub fn typed1(t: &str, k1: &str, v1: JsonValue) -> (r: JsonValue)
    ensures
        r@ == jtyped(t@, seq![(k1@, v1@)]),
{
    let mut ms: Vec<Member> = Vec::new();
    let ghost g1 = v1@;
    push_member(&mut ms, "type", JsonValue::Str(owned(t)));
    push_member(&mut ms, k1, v1);
    assert(view_members(ms@) =~= seq![("type"@, SpecJson::Str(t@))] + seq![(k1@, g1)]);
    JsonValue::Object(ms)
}

pub fn typed2(t: &str, k1: &str, v1: JsonValue, k2: &str, v2: JsonValue) -> (r: JsonValue)
    ensures
        r@ == jtyped(t@, seq![(k1@, v1@), (k2@, v2@)]),
{
    let mut ms: Vec<Member> = Vec::new();
    let ghost g1 = v1@;
    let ghost g2 = v2@;
    push_member(&mut ms, "type", JsonValue::Str(owned(t)));
    push_member(&mut ms, k1, v1);
    push_member(&mut ms, k2, v2);
    assert(view_members(ms@) =~= seq![("type"@, SpecJson::Str(t@))] + seq![(k1@, g1), (k2@, g2)]);
    JsonValue::Object(ms)
}

pub fn typed3(t: &str, k1: &str, v1: JsonValue, k2: &str, v2: JsonValue, k3: &str, v3: JsonValue) -> (r: JsonValue)
    ensures
        r@ == jtyped(t@, seq![(k1@, v1@), (k2@, v2@), (k3@, v3@)]),
{
    let mut ms: Vec<Member> = Vec::new();
    let ghost g1 = v1@;
    let ghost g2 = v2@;
    let ghost g3 = v3@;
    push_member(&mut ms, "type", JsonValue::Str(owned(t)));
    push_member(&mut ms, k1, v1);
    push_member(&mut ms, k2, v2);
    push_member(&mut ms, k3, v3);
    assert(view_members(ms@) =~= seq![("type"@, SpecJson::Str(t@))] + seq![(k1@, g1), (k2@, g2), (k3@, g3)]);
    JsonValue::Object(ms)
}

fn ident_json(n: &Node) -> (r: JsonValue)
    ensures
        r@ == jident(name_of(n@)),
{
    let name = match &n.payload {
        Payload::Name(s) => s.clone(),
        _ => String::new(),
    };
    typed1("Identifier", "name", JsonValue::Str(name))
}

/// The JSON rendering of a node in a given position.
pub fn node_to_json(n: &Node, m: ToJson) -> (r: JsonValue)
    ensures
        r@ == to_json(n@, m),
    decreases n, to_json_rank(m),
{
    proof {
        lemma_view_nodes(n.children@);
    }
    let len = n.children.len();
    match m {
        ToJson::Elem => if n.kind == Kind::Arg && len > 0 {
            node_to_json(&n.children[0], ToJson::Expr)
        } else {
            JsonValue::Null
        },
        ToJson::Argument => if n.kind == Kind::Arg && len > 0 {
            node_to_json(&n.children[0], ToJson::Expr)
        } else {
            typed0("Unsupported")
        },
        ToJson::Prop => if n.kind == Kind::KeyValue && len >= 2 {
            let k = node_to_json(&n.children[0], ToJson::Key);
            let v = node_to_json(&n.children[1], ToJson::Expr);
            typed3("Property", "key", k, "value", v, "kind", JsonValue::Str(owned("init")))
        } else {
            JsonValue::Null
        },
        ToJson::Key => if n.kind == Kind::PropName {
            ident_json(n)
        } else {
            JsonValue::Null
        },
        ToJson::Param => if n.kind == Kind::PIdent {
            ident_json(n)
        } else {
            JsonValue::Null
        },
        ToJson::MemberProp => if n.kind == Kind::PropName {
            ident_json(n)
        } else if n.kind == Kind::Computed && len > 0 {
            node_to_json(&n.children[0], ToJson::Expr)
        } else {
            typed0("Unsupported")
        },
        ToJson::Callee => if n.kind == Kind::Super {
            JsonValue::Null
        } else {
            node_to_json(n, ToJson::Expr)
        },
        ToJson::ParamList => JsonValue::Array(nodes_to_json(&n.children, ToJson::Param)),
        ToJson::ArgList => JsonValue::Array(nodes_to_json(&n.children, ToJson::Argument)),
        ToJson::Stmt => if n.kind == Kind::SExpr && len > 0 {
            typed1("ExpressionStatement", "expression", node_to_json(&n.children[0], ToJson::Expr))
        } else if n.kind == Kind::SBlock {
            typed1("BlockStatement", "body", JsonValue::Array(nodes_to_json(&n.children, ToJson::Stmt)))
        } else if n.kind == Kind::SIf && len >= 3 {
            let test = node_to_json(&n.children[0], ToJson::Expr);
            let cons = node_to_json(&n.children[1], ToJson::Stmt);
            let alt = if n.children[2].kind == Kind::Absent {
                JsonValue::Null
            } else {
                node_to_json(&n.children[2], ToJson::Stmt)
            };
            typed3("IfStatement", "test", test, "consequent", cons, "alternate", alt)
        } else if n.kind == Kind::SReturn && len > 0 {
            let arg = if n.children[0].kind == Kind::Absent {
                JsonValue::Null
            } else {
                node_to_json(&n.children[0], ToJson::Expr)
            };
            typed1("ReturnStatement", "argument", arg)
        } else if n.kind == Kind::SVar && matches!(n.payload, Payload::Var(..)) {
            match &n.payload {
                Payload::Var(k) => {
                    let ds = declarators_to_json(&n.children);
                    typed2("VariableDeclaration", "kind", JsonValue::Str(owned(var_kind_str(*k))), "declarations", JsonValue::Array(ds))
                },
                _ => unsupported_json(n),
            }
        } else {
            unsupported_json(n)
        },
        ToJson::Expr => if n.kind == Kind::EIdent {
            ident_json(n)
        } else if n.kind == Kind::ENum && matches!(n.payload, Payload::Number(..)) {
            match &n.payload {
                Payload::Number(num, _) => {
                    let v = JsonValue::Number(JsNumber { bits: num.bits, text: num.text.clone() });
                    typed2("Literal", "value", v, "raw", JsonValue::Str(num.text.clone()))
                },
                _ => typed0("Unsupported"),
            }
        } else if n.kind == Kind::EStr && matches!(n.payload, Payload::Str(..)) {
            match &n.payload {
                Payload::Str(s, _) => {
                    let raw = concat(concat("\"", s.as_str()).as_str(), "\"");
                    typed2("Literal", "value", JsonValue::Str(s.clone()), "raw", JsonValue::Str(raw))
                },
                _ => typed0("Unsupported"),
            }
        } else if n.kind == Kind::EArray {
            typed1("ArrayExpression", "elements", JsonValue::Array(nodes_to_json(&n.children, ToJson::Elem)))
        } else if n.kind == Kind::EObject {
            typed1("ObjectExpression", "properties", JsonValue::Array(nodes_to_json(&n.children, ToJson::Prop)))
        } else if n.kind == Kind::EArrow && len >= 2 {
            let params = node_to_json(&n.children[0], ToJson::ParamList);
            let is_block = n.children[1].kind == Kind::SBlock;
            let body = if is_block {
                node_to_json(&n.children[1], ToJson::Stmt)
            } else {
                node_to_json(&n.children[1], ToJson::Expr)
            };
            typed3("ArrowFunctionExpression", "params", params, "body", body, "expression", JsonValue::Bool(!is_block))
        } else if n.kind == Kind::EBin && len >= 2 && matches!(n.payload, Payload::Binary(..)) {
            match &n.payload {
                Payload::Binary(op) => {
                    let l = node_to_json(&n.children[0], ToJson::Expr);
                    let r = node_to_json(&n.children[1], ToJson::Expr);
                    typed3("BinaryExpression", "left", l, "right", r, "operator", JsonValue::Str(owned(binary_op_str(*op))))
                },
                _ => typed0("Unsupported"),
            }
        } else if n.kind == Kind::ECall && len >= 2 {
            let callee = node_to_json(&n.children[0], ToJson::Callee);
            let args = node_to_json(&n.children[1], ToJson::ArgList);
            typed2("CallExpression", "callee", callee, "arguments", args)
        } else if n.kind == Kind::EMember && len >= 2 {
            let obj = node_to_json(&n.children[0], ToJson::Expr);
            let prop = node_to_json(&n.children[1], ToJson::MemberProp);
            let computed = n.children[1].kind == Kind::Computed;
            typed3("MemberExpression", "object", obj, "property", prop, "computed", JsonValue::Bool(computed))
        } else if n.kind == Kind::EUnary && len >= 1 && matches!(n.payload, Payload::Unary(..)) {
            match &n.payload {
                Payload::Unary(op) => {
                    let a = node_to_json(&n.children[0], ToJson::Expr);
                    typed3("UnaryExpression", "operator", JsonValue::Str(owned(unary_op_str(*op))), "argument", a, "prefix", JsonValue::Bool(true))
                },
                _ => typed0("Unsupported"),
            }
        } else if n.kind == Kind::EParen && len >= 1 {
            typed1("ParenExpression", "expression", node_to_json(&n.children[0], ToJson::Expr))
        } else if n.kind == Kind::EBool && matches!(n.payload, Payload::Bool(..)) {
            match &n.payload {
                Payload::Bool(b) => {
                    let raw = if *b { owned("true") } else { owned("false") };
                    typed2("Literal", "value", JsonValue::Bool(*b), "raw", JsonValue::Str(raw))
                },
                _ => unsupported_json(n),
            }
        } else if n.kind == Kind::ENull {
            typed2("Literal", "value", JsonValue::Null, "raw", JsonValue::Str(owned("null")))
        } else {
            unsupported_json(n)
        },
    }
}

/// The JSON of the declarators of a variable declaration.
fn declarators_to_json(v: &Vec<Node>) -> (r: Vec<JsonValue>)
    ensures
        jsons_view(r) == declarators_json(nodes_view(*v)),
    decreases v, 0nat,
{
    let mut out: Vec<JsonValue> = Vec::new();
    let mut i: usize = 0;
    proof {
        lemma_view_nodes(v@);
    }
    while i < v.len()
        invariant
            i <= v.len(),
            view_nodes(v@).len() == v.len(),
            forall|j: int| 0 <= j < v.len() ==> #[trigger] view_nodes(v@)[j] == view_node(v@[j]),
            jsons_view(out) == declarators_json(view_nodes(v@).take(i as int)),
        decreases v.len() - i,
    {
        let x = declarator_to_json(&v[i]);
        push_json(&mut out, x);
        assert(view_nodes(v@).take(i + 1).drop_last() =~= view_nodes(v@).take(i as int));
        i = i + 1;
    }
    assert(view_nodes(v@).take(v.len() as int) =~= view_nodes(v@));
    out
}

fn declarator_to_json(d: &Node) -> (r: JsonValue)
    ensures
        r@ == declarator_json(d@),
    decreases d, 0nat,
{
    proof {
        lemma_view_nodes(d.children@);
    }
    if d.kind == Kind::Declarator && d.children.len() >= 2 {
        let id = node_to_json(&d.children[0], ToJson::Param);
        let init = if d.children[1].kind == Kind::Absent {
            JsonValue::Null
        } else {
            node_to_json(&d.children[1], ToJson::Expr)
        };
        typed2("VariableDeclarator", "id", id, "init", init)
    } else {
        JsonValue::Null
    }
}

/// The JSON renderings of a list of nodes in a given position.
pub fn nodes_to_json(v: &Vec<Node>, m: ToJson) -> (r: Vec<JsonValue>)
    ensures
        jsons_view(r) == to_json_list(nodes_view(*v), m),
    decreases v,
{
    let mut out: Vec<JsonValue> = Vec::new();
    let mut i: usize = 0;
    proof {
        lemma_view_nodes(v@);
    }
    while i < v.len()
        invariant
            i <= v.len(),
            view_nodes(v@).len() == v.len(),
            forall|j: int| 0 <= j < v.len() ==> #[trigger] view_nodes(v@)[j] == view_node(v@[j]),
            jsons_view(out) == to_json_list(view_nodes(v@).take(i as int), m),
        decreases v.len() - i,
    {
        let x = node_to_json(&v[i], m);
        push_json(&mut out, x);
        assert(view_nodes(v@).take(i + 1).drop_last() =~= view_nodes(v@).take(i as int));
        i = i + 1;
    }
    assert(view_nodes(v@).take(v.len() as int) =~= view_nodes(v@));
    out
}

/// `expr_to_json`: the ESTree-like JSON of an expression.
pub fn expr_to_json(e: &Node) -> (r: JsonValue)
    ensures
        r@ == to_json(e@, ToJson::Expr),
{
    node_to_json(e, ToJson::Expr)
}

/// `stmt_to_json`: the ESTree-like JSON of a statement.
pub fn stmt_to_json(s: &Node) -> (r: JsonValue)
    ensures
        r@ == to_json(s@, ToJson::Stmt),
{
    node_to_json(s, ToJson::Stmt)
}

// ---------------------------------------------------------------------------
// JSON to syntax

/// The outcome of turning JSON back into syntax: a node, no node (the JSON has
/// another shape), or a malformed arrow parameter, on which the conversion
/// cannot go on (`unwrap` of a missing parameter name).
pub enum Conv<T> {
    Done(T),
    Fail,
    Crash,
}

impl<T: View> View for Conv<T> {
    type V = Conv<T::V>;

    open spec fn view(&self) -> Conv<T::V> {
        match self {
            Conv::Done(x) => Conv::Done(x@),
            Conv::Fail => Conv::Fail,
            Conv::Crash => Conv::Crash,
        }
    }
}

/// The view of a converted list.
pub open spec fn conv_nodes(c: Conv<Vec<Node>>) -> Conv<Seq<SpecNode>> {
    match c {
        Conv::Done(v) => Conv::Done(nodes_view(v)),
        Conv::Fail => Conv::Fail,
        Conv::Crash => Conv::Crash,
    }
}

/// What a JSON value is read as.
#[derive(Clone, Copy)]
pub enum FromJson {
    Expr,
    Stmt,
    /// An element of an array literal (`null` is a hole).
    Elem,
    /// A call argument.
    Argument,
    /// An arrow function parameter.
    Param,
    /// A property of an object literal.
    Prop,
}

pub open spec fn from_json_rank(m: FromJson) -> nat {
    match m {
        FromJson::Expr => 1,
        FromJson::Param => 0,
        _ => 2,
    }
}

pub open spec fn arg_node(e: SpecNode) -> SpecNode {
    snode(Kind::Arg, dummy_span(), SpecPayload::Empty, seq![e])
}

pub open spec fn arrow_node(span: Span, params: Seq<SpecNode>, body: SpecNode) -> SpecNode {
    snode(
        Kind::EArrow,
        span,
        SpecPayload::Func { is_async: false, is_generator: false, text: Seq::empty() },
        seq![snode(Kind::Params, dummy_span(), SpecPayload::Empty, params), body],
    )
}

pub proof fn lemma_jget_array_decreases(v: SpecJson, key: Seq<char>)
    ensures
        jas_array(jget(v, key)) matches Some(a) ==> decreases_to!(v => a),
{
    lemma_jget_decreases(v, key);
    if let Some(SpecJson::Array(a)) = jget(v, key) {
        let x = jget(v, key)->Some_0;
        assert(decreases_to!(x => a));
    }
}

/// The name of a property's key, when it is an identifier.
pub open spec fn prop_key_name(v: SpecJson) -> Option<Seq<char>> {
    match jget(v, "key"@) {
        Some(kv) => if jget_str(kv, "type"@) == Some("Identifier"@) { jget_str(kv, "name"@) } else { None },
        None => None,
    }
}

/// A `key: value` property.
pub open spec fn prop_node(k: Seq<char>, e: SpecNode, span: Span) -> SpecNode {
    snode(Kind::KeyValue, dummy_span(), SpecPayload::Empty, seq![sleaf(Kind::PropName, span, SpecPayload::Name(k)), e])
}

/// The syntax a JSON value stands for, read in the given position, every new
/// node carrying `span` (lists and arguments carry none).
pub open spec fn from_json(v: SpecJson, m: FromJson, span: Span) -> Conv<SpecNode>
    decreases v, from_json_rank(m),
{
    match m {
        FromJson::Elem => if v == SpecJson::Null {
            Conv::Done(sleaf(Kind::Hole, dummy_span(), SpecPayload::Empty))
        } else {
            match from_json(v, FromJson::Expr, span) {
                Conv::Done(e) => Conv::Done(arg_node(e)),
                Conv::Fail => Conv::Fail,
                Conv::Crash => Conv::Crash,
            }
        },
        FromJson::Argument => match from_json(v, FromJson::Expr, span) {
            Conv::Done(e) => Conv::Done(arg_node(e)),
            Conv::Fail => Conv::Fail,
            Conv::Crash => Conv::Crash,
        },
        FromJson::Param => match jget_str(v, "name"@) {
            Some(nm) => Conv::Done(sleaf(Kind::PIdent, span, SpecPayload::Name(nm))),
            None => Conv::Crash,
        },
        FromJson::Prop => {
            proof {
                lemma_jget_decreases(v, "value"@);
            }
            match prop_key_name(v) {
                None => Conv::Fail,
                Some(k) => match jget(v, "value"@) {
                    None => Conv::Fail,
                    Some(vv) => match from_json(vv, FromJson::Expr, span) {
                        Conv::Done(e) => Conv::Done(prop_node(k, e, span)),
                        Conv::Fail => Conv::Fail,
                        Conv::Crash => Conv::Crash,
                    },
                },
            }
        },
        FromJson::Stmt => {
            proof {
                lemma_jget_decreases(v, "test"@);
                lemma_jget_decreases(v, "consequent"@);
                lemma_jget_decreases(v, "alternate"@);
                lemma_jget_decreases(v, "expression"@);
                lemma_jget_decreases(v, "argument"@);
                lemma_jget_array_decreases(v, "body"@);
            }
            match jget_str(v, "type"@) {
                None => Conv::Fail,
                Some(t) => if t == "BlockStatement"@ {
                    match jas_array(jget(v, "body"@)) {
                        None => Conv::Fail,
                        Some(a) => match from_json_stmts(a, span) {
                            Conv::Done(xs) => Conv::Done(snode(Kind::SBlock, span, SpecPayload::Empty, xs)),
                            Conv::Fail => Conv::Fail,
                            Conv::Crash => Conv::Crash,
                        },
                    }
                } else if t == "IfStatement"@ {
                    match jget(v, "test"@) {
                        None => Conv::Fail,
                        Some(tv) => match from_json(tv, FromJson::Expr, span) {
                            Conv::Fail => Conv::Fail,
                            Conv::Crash => Conv::Crash,
                            Conv::Done(test) => match jget(v, "consequent"@) {
                                None => Conv::Fail,
                                Some(cv) => match from_json(cv, FromJson::Stmt, span) {
                                    Conv::Fail => Conv::Fail,
                                    Conv::Crash => Conv::Crash,
                                    Conv::Done(cons) => match jget(v, "alternate"@) {
                                        Some(av) => if av != SpecJson::Null {
                                            match from_json(av, FromJson::Stmt, span) {
                                                Conv::Fail => Conv::Fail,
                                                Conv::Crash => Conv::Crash,
                                                Conv::Done(alt) => Conv::Done(snode(
                                                    Kind::SIf, span, SpecPayload::Empty, seq![test, cons, alt])),
                                            }
                                        } else {
                                            Conv::Done(snode(Kind::SIf, span, SpecPayload::Empty,
                                                seq![test, cons, sleaf(Kind::Absent, dummy_span(), SpecPayload::Empty)]))
                                        },
                                        None => Conv::Done(snode(Kind::SIf, span, SpecPayload::Empty,
                                            seq![test, cons, sleaf(Kind::Absent, dummy_span(), SpecPayload::Empty)])),
                                    },
                                },
                            },
                        },
                    }
                } else if t == "ExpressionStatement"@ {
                    match jget(v, "expression"@) {
                        None => Conv::Fail,
                        Some(ev) => match from_json(ev, FromJson::Expr, span) {
                            Conv::Done(e) => Conv::Done(snode(Kind::SExpr, span, SpecPayload::Empty, seq![e])),
                            Conv::Fail => Conv::Fail,
                            Conv::Crash => Conv::Crash,
                        },
                    }
                } else if t == "CallExpression"@ {
                    match from_json(v, FromJson::Expr, span) {
                        Conv::Done(e) => Conv::Done(snode(Kind::SExpr, span, SpecPayload::Empty, seq![e])),
                        Conv::Fail => Conv::Fail,
                        Conv::Crash => Conv::Crash,
                    }
                } else if t == "VariableDeclaration"@ {
                    json_var_decl(v, span)
                } else if t == "ReturnStatement"@ {
                    match jget(v, "argument"@) {
                        Some(av) => if av != SpecJson::Null {
                            match from_json(av, FromJson::Expr, span) {
                                Conv::Done(e) => Conv::Done(snode(Kind::SReturn, span, SpecPayload::Empty, seq![e])),
                                Conv::Fail => Conv::Fail,
                                Conv::Crash => Conv::Crash,
                            }
                        } else {
                            Conv::Done(snode(Kind::SReturn, span, SpecPayload::Empty,
                                seq![sleaf(Kind::Absent, dummy_span(), SpecPayload::Empty)]))
                        },
                        None => Conv::Done(snode(Kind::SReturn, span, SpecPayload::Empty,
                            seq![sleaf(Kind::Absent, dummy_span(), SpecPayload::Empty)])),
                    }
                } else {
                    Conv::Fail
                },
            }
        },
        FromJson::Expr => {
            proof {
                lemma_jget_decreases(v, "left"@);
                lemma_jget_decreases(v, "right"@);
                lemma_jget_decreases(v, "argument"@);
                lemma_jget_decreases(v, "object"@);
                lemma_jget_decreases(v, "property"@);
                lemma_jget_decreases(v, "callee"@);
                lemma_jget_decreases(v, "expression"@);
                lemma_jget_decreases(v, "body"@);
                lemma_jget_array_decreases(v, "elements"@);
                lemma_jget_array_decreases(v, "params"@);
                lemma_jget_array_decreases(v, "arguments"@);
                lemma_jget_array_decreases(v, "properties"@);
            }
            match jget_str(v, "type"@) {
                None => Conv::Fail,
                Some(t) => if t == "Identifier"@ {
                    match jget_str(v, "name"@) {
                        Some(nm) => Conv::Done(sleaf(Kind::EIdent, span, SpecPayload::Name(nm))),
                        None => Conv::Fail,
                    }
                } else if t == "Literal"@ {
                    match jget(v, "value"@) {
                        Some(SpecJson::Number(num)) => Conv::Done(sleaf(Kind::ENum, span, SpecPayload::Number(num, None))),
                        Some(SpecJson::Str(sv)) => Conv::Done(sleaf(Kind::EStr, span, SpecPayload::Str(sv, None))),
                        Some(SpecJson::Bool(b)) => Conv::Done(sleaf(Kind::EBool, span, SpecPayload::Bool(b))),
                        Some(SpecJson::Null) => Conv::Done(sleaf(Kind::ENull, span, SpecPayload::Empty)),
                        _ => Conv::Fail,
                    }
                } else if t == "ArrayExpression"@ {
                    match jas_array(jget(v, "elements"@)) {
                        None => Conv::Fail,
                        Some(a) => match from_json_list(a, FromJson::Elem, span) {
                            Conv::Done(xs) => Conv::Done(snode(Kind::EArray, span, SpecPayload::Empty, xs)),
                            Conv::Fail => Conv::Fail,
                            Conv::Crash => Conv::Crash,
                        },
                    }
                } else if t == "ArrowFunctionExpression"@ {
                    json_arrow(v, span)
                } else if t == "BinaryExpression"@ {
                    json_binary(v, span)
                } else if t == "UnaryExpression"@ {
                    json_unary(v, span)
                } else if t == "MemberExpression"@ {
                    json_member(v, span)
                } else if t == "CallExpression"@ {
                    json_call(v, span)
                } else if t == "ParenExpression"@ {
                    match jget(v, "expression"@) {
                        None => Conv::Fail,
                        Some(ev) => match from_json(ev, FromJson::Expr, span) {
                            Conv::Done(e) => Conv::Done(snode(Kind::EParen, span, SpecPayload::Empty, seq![e])),
                            Conv::Fail => Conv::Fail,
                            Conv::Crash => Conv::Crash,
                        },
                    }
                } else if t == "ObjectExpression"@ {
                    match jas_array(jget(v, "properties"@)) {
                        None => Conv::Fail,
                        Some(a) => match from_json_list(a, FromJson::Prop, span) {
                            Conv::Done(xs) => Conv::Done(snode(Kind::EObject, span, SpecPayload::Empty, xs)),
                            Conv::Fail => Conv::Fail,
                            Conv::Crash => Conv::Crash,
                        },
                    }
                } else {
                    Conv::Fail
                },
            }
        },
    }
}

/// A variable declaration: its kind and its declarators, each an identifier
/// with an optional initializer.
pub open spec fn json_var_decl(v: SpecJson, span: Span) -> Conv<SpecNode>
    decreases v, 0nat,
{
    proof {
        lemma_jget_array_decreases(v, "declarations"@);
    }
    match var_kind_of(jget_str(v, "kind"@)) {
        None => Conv::Fail,
        Some(k) => match jas_array(jget(v, "declarations"@)) {
            None => Conv::Fail,
            Some(a) => match json_declarators(a, span) {
                Conv::Done(ds) => Conv::Done(snode(Kind::SVar, span, SpecPayload::Var(k), ds)),
                Conv::Fail => Conv::Fail,
                Conv::Crash => Conv::Crash,
            },
        },
    }
}

pub open spec fn json_declarators(a: Seq<SpecJson>, span: Span) -> Conv<Seq<SpecNode>>
    decreases a, 0nat,
{
    if a.len() == 0 {
        Conv::Done(Seq::empty())
    } else {
        match json_declarators(a.drop_last(), span) {
            Conv::Done(xs) => match json_declarator(a.last(), span) {
                Conv::Done(x) => Conv::Done(xs.push(x)),
                Conv::Fail => Conv::Fail,
                Conv::Crash => Conv::Crash,
            },
            Conv::Fail => Conv::Fail,
            Conv::Crash => Conv::Crash,
        }
    }
}

/// The identifier of a declarator's `id`, when it is one.
pub open spec fn declarator_name(d: SpecJson) -> Option<Seq<char>> {
    match jget(d, "id"@) {
        Some(id) => if jget_str(id, "type"@) == Some("Identifier"@) { jget_str(id, "name"@) } else { None },
        None => None,
    }
}

pub open spec fn json_declarator(d: SpecJson, span: Span) -> Conv<SpecNode>
    decreases d, 0nat,
{
    proof {
        lemma_jget_decreases(d, "init"@);
    }
    match declarator_name(d) {
        None => Conv::Fail,
        Some(nm) => {
            let id = sleaf(Kind::PIdent, span, SpecPayload::Name(nm));
            let none = sleaf(Kind::Absent, dummy_span(), SpecPayload::Empty);
            match jget(d, "init"@) {
                None => Conv::Done(snode(Kind::Declarator, span, SpecPayload::Empty, seq![id, none])),
                Some(iv) => if iv == SpecJson::Null {
                    Conv::Done(snode(Kind::Declarator, span, SpecPayload::Empty, seq![id, none]))
                } else {
                    match from_json(iv, FromJson::Expr, span) {
                        Conv::Done(e) => Conv::Done(snode(Kind::Declarator, span, SpecPayload::Empty, seq![id, e])),
                        Conv::Fail => Conv::Fail,
                        Conv::Crash => Conv::Crash,
                    }
                },
            }
        },
    }
}

pub open spec fn json_arrow(v: SpecJson, span: Span) -> Conv<SpecNode>
    decreases v, 0nat,
{
    proof {
        lemma_jget_decreases(v, "body"@);
        lemma_jget_array_decreases(v, "params"@);
    }
    match jas_array(jget(v, "params"@)) {
        None => Conv::Fail,
        Some(ps) => match from_json_list(ps, FromJson::Param, span) {
            Conv::Fail => Conv::Fail,
            Conv::Crash => Conv::Crash,
            Conv::Done(params) => match jget(v, "body"@) {
                None => Conv::Fail,
                Some(bv) => if jas_bool(jget(v, "expression"@)) == Some(true) {
                    match from_json(bv, FromJson::Expr, span) {
                        Conv::Done(e) => Conv::Done(arrow_node(span, params, e)),
                        Conv::Fail => Conv::Fail,
                        Conv::Crash => Conv::Crash,
                    }
                } else {
                    match from_json(bv, FromJson::Stmt, span) {
                        Conv::Done(b) => if b.kind == Kind::SBlock {
                            Conv::Done(arrow_node(span, params, b))
                        } else {
                            Conv::Fail
                        },
                        Conv::Fail => Conv::Fail,
                        Conv::Crash => Conv::Crash,
                    }
                },
            },
        },
    }
}

pub open spec fn json_binary(v: SpecJson, span: Span) -> Conv<SpecNode>
    decreases v, 0nat,
{
    proof {
        lemma_jget_decreases(v, "left"@);
        lemma_jget_decreases(v, "right"@);
    }
    match jget(v, "left"@) {
        None => Conv::Fail,
        Some(lv) => match from_json(lv, FromJson::Expr, span) {
            Conv::Fail => Conv::Fail,
            Conv::Crash => Conv::Crash,
            Conv::Done(l) => match jget(v, "right"@) {
                None => Conv::Fail,
                Some(rv) => match from_json(rv, FromJson::Expr, span) {
                    Conv::Fail => Conv::Fail,
                    Conv::Crash => Conv::Crash,
                    Conv::Done(r) => match jget_str(v, "operator"@) {
                        None => Conv::Fail,
                        Some(o) => match binary_op_of(o) {
                            Some(op) => Conv::Done(snode(Kind::EBin, span, SpecPayload::Binary(op), seq![l, r])),
                            None => Conv::Fail,
                        },
                    },
                },
            },
        },
    }
}

pub open spec fn json_unary(v: SpecJson, span: Span) -> Conv<SpecNode>
    decreases v, 0nat,
{
    proof {
        lemma_jget_decreases(v, "argument"@);
    }
    match jget(v, "argument"@) {
        None => Conv::Fail,
        Some(av) => match from_json(av, FromJson::Expr, span) {
            Conv::Fail => Conv::Fail,
            Conv::Crash => Conv::Crash,
            Conv::Done(a) => match jget_str(v, "operator"@) {
                None => Conv::Fail,
                Some(o) => match unary_op_of(o) {
                    Some(op) => Conv::Done(snode(Kind::EUnary, span, SpecPayload::Unary(op), seq![a])),
                    None => Conv::Fail,
                },
            },
        },
    }
}

pub open spec fn json_member(v: SpecJson, span: Span) -> Conv<SpecNode>
    decreases v, 0nat,
{
    proof {
        lemma_jget_decreases(v, "object"@);
        lemma_jget_decreases(v, "property"@);
    }
    match jget(v, "object"@) {
        None => Conv::Fail,
        Some(ov) => match from_json(ov, FromJson::Expr, span) {
            Conv::Fail => Conv::Fail,
            Conv::Crash => Conv::Crash,
            Conv::Done(obj) => match jget(v, "property"@) {
                None => Conv::Fail,
                Some(pv) => match jas_bool(jget(v, "computed"@)) {
                    None => Conv::Fail,
                    Some(computed) => if computed {
                        match from_json(pv, FromJson::Expr, span) {
                            Conv::Fail => Conv::Fail,
                            Conv::Crash => Conv::Crash,
                            Conv::Done(pe) => Conv::Done(snode(Kind::EMember, span, SpecPayload::Empty,
                                seq![obj, snode(Kind::Computed, span, SpecPayload::Empty, seq![pe])])),
                        }
                    } else {
                        match jget_str(pv, "name"@) {
                            None => Conv::Fail,
                            Some(nm) => Conv::Done(snode(Kind::EMember, span, SpecPayload::Empty,
                                seq![obj, sleaf(Kind::PropName, span, SpecPayload::Name(nm))])),
                        }
                    },
                },
            },
        },
    }
}

pub open spec fn json_call(v: SpecJson, span: Span) -> Conv<SpecNode>
    decreases v, 0nat,
{
    proof {
        lemma_jget_decreases(v, "callee"@);
        lemma_jget_array_decreases(v, "arguments"@);
    }
    match jget(v, "callee"@) {
        None => Conv::Fail,
        Some(cv) => match from_json(cv, FromJson::Expr, span) {
            Conv::Fail => Conv::Fail,
            Conv::Crash => Conv::Crash,
            Conv::Done(callee) => match jas_array(jget(v, "arguments"@)) {
                None => Conv::Fail,
                Some(a) => match from_json_list(a, FromJson::Argument, span) {
                    Conv::Fail => Conv::Fail,
                    Conv::Crash => Conv::Crash,
                    Conv::Done(args) => Conv::Done(snode(Kind::ECall, span, SpecPayload::Empty,
                        seq![callee, snode(Kind::Args, dummy_span(), SpecPayload::Empty, args)])),
                },
            },
        },
    }
}

/// A list read item by item, stopping at the first item that does not convert.
pub open spec fn from_json_list(s: Seq<SpecJson>, m: FromJson, span: Span) -> Conv<Seq<SpecNode>>
    decreases s,
{
    if s.len() == 0 {
        Conv::Done(Seq::empty())
    } else {
        match from_json_list(s.drop_last(), m, span) {
            Conv::Done(xs) => match from_json(s.last(), m, span) {
                Conv::Done(x) => Conv::Done(xs.push(x)),
                Conv::Fail => Conv::Fail,
                Conv::Crash => Conv::Crash,
            },
            Conv::Fail => Conv::Fail,
            Conv::Crash => Conv::Crash,
        }
    }
}

/// The statements of a block body: each must convert.
pub open spec fn from_json_stmts(s: Seq<SpecJson>, span: Span) -> Conv<Seq<SpecNode>>
    decreases s,
{
    if s.len() == 0 {
        Conv::Done(Seq::empty())
    } else {
        match from_json_stmts(s.drop_last(), span) {
            Conv::Done(xs) => match from_json(s.last(), FromJson::Stmt, span) {
                Conv::Done(x) => Conv::Done(xs.push(x)),
                Conv::Fail => Conv::Fail,
                Conv::Crash => Conv::Crash,
            },
            Conv::Fail => Conv::Fail,
            Conv::Crash => Conv::Crash,
        }
    }
}

fn absent() -> (n: Node)
    ensures
        n@ == sleaf(Kind::Absent, dummy_span(), SpecPayload::Empty),
{
    leaf(Kind::Absent, dummy())
}

fn arg_of(e: Node) -> (n: Node)
    ensures
        n@ == arg_node(e@),
{
    make(Kind::Arg, dummy(), Payload::Empty, one(e))
}

fn name_node(kind: Kind, span: Span, name: &String) -> (n: Node)
    ensures
        n@ == sleaf(kind, span, SpecPayload::Name(name@)),
{
    let n = Node { kind, span, payload: Payload::Name(name.clone()), children: Vec::new() };
    assert(n@.children =~= Seq::<SpecNode>::empty());
    n
}

/// The syntax a JSON value stands for, read in the given position.
pub fn node_from_json(v: &JsonValue, m: FromJson, span: Span) -> (r: Conv<Node>)
    ensures
        r@ == from_json(v@, m, span),
    decreases v, from_json_rank(m) + 1,
{
    match m {
        FromJson::Elem => {
            if matches!(v, JsonValue::Null) {
                return Conv::Done(leaf(Kind::Hole, dummy()));
            }
            match expr_from_json(v, span) {
                Conv::Done(e) => Conv::Done(arg_of(e)),
                Conv::Fail => Conv::Fail,
                Conv::Crash => Conv::Crash,
            }
        },
        FromJson::Argument => match expr_from_json(v, span) {
            Conv::Done(e) => Conv::Done(arg_of(e)),
            Conv::Fail => Conv::Fail,
            Conv::Crash => Conv::Crash,
        },
        FromJson::Param => match get_str(v, "name") {
            Some(nm) => Conv::Done(name_node(Kind::PIdent, span, nm)),
            None => Conv::Crash,
        },
        FromJson::Prop => prop_from_json(v, span),
        FromJson::Stmt => stmt_from_json(v, span),
        FromJson::Expr => expr_from_json(v, span),
    }
}

fn stmt_from_json(v: &JsonValue, span: Span) -> (r: Conv<Node>)
    ensures
        r@ == from_json(v@, FromJson::Stmt, span),
    decreases v, 2nat,
{
    let t = match get_str(v, "type") {
        Some(t) => t,
        None => return Conv::Fail,
    };
    if *t == owned("BlockStatement") {
        match get(v, "body") {
            Some(JsonValue::Array(a)) => match stmts_from_json(a, span) {
                Conv::Done(xs) => Conv::Done(make(Kind::SBlock, span, Payload::Empty, xs)),
                Conv::Fail => Conv::Fail,
                Conv::Crash => Conv::Crash,
            },
            _ => Conv::Fail,
        }
    } else if *t == owned("IfStatement") {
        let test = match get(v, "test") {
            None => return Conv::Fail,
            Some(tv) => match node_from_json(tv, FromJson::Expr, span) {
                Conv::Done(e) => e,
                Conv::Fail => return Conv::Fail,
                Conv::Crash => return Conv::Crash,
            },
        };
        let cons = match get(v, "consequent") {
            None => return Conv::Fail,
            Some(cv) => match node_from_json(cv, FromJson::Stmt, span) {
                Conv::Done(e) => e,
                Conv::Fail => return Conv::Fail,
                Conv::Crash => return Conv::Crash,
            },
        };
        let alt = match get(v, "alternate") {
            Some(av) => if !matches!(av, JsonValue::Null) {
                match node_from_json(av, FromJson::Stmt, span) {
                    Conv::Done(e) => e,
                    Conv::Fail => return Conv::Fail,
                    Conv::Crash => return Conv::Crash,
                }
            } else {
                absent()
            },
            None => absent(),
        };
        Conv::Done(make(Kind::SIf, span, Payload::Empty, three(test, cons, alt)))
    } else if *t == owned("ExpressionStatement") {
        match get(v, "expression") {
            None => Conv::Fail,
            Some(ev) => match node_from_json(ev, FromJson::Expr, span) {
                Conv::Done(e) => Conv::Done(make(Kind::SExpr, span, Payload::Empty, one(e))),
                Conv::Fail => Conv::Fail,
                Conv::Crash => Conv::Crash,
            },
        }
    } else if *t == owned("CallExpression") {
        match expr_from_json(v, span) {
            Conv::Done(e) => Conv::Done(make(Kind::SExpr, span, Payload::Empty, one(e))),
            Conv::Fail => Conv::Fail,
            Conv::Crash => Conv::Crash,
        }
    } else if *t == owned("VariableDeclaration") {
        var_decl_from_json(v, span)
    } else if *t == owned("ReturnStatement") {
        match get(v, "argument") {
            Some(av) => if !matches!(av, JsonValue::Null) {
                match node_from_json(av, FromJson::Expr, span) {
                    Conv::Done(e) => Conv::Done(make(Kind::SReturn, span, Payload::Empty, one(e))),
                    Conv::Fail => Conv::Fail,
                    Conv::Crash => Conv::Crash,
                }
            } else {
                Conv::Done(make(Kind::SReturn, span, Payload::Empty, one(absent())))
            },
            None => Conv::Done(make(Kind::SReturn, span, Payload::Empty, one(absent()))),
        }
    } else {
        Conv::Fail
    }
}

fn prop_from_json(v: &JsonValue, span: Span) -> (r: Conv<Node>)
    ensures
        r@ == from_json(v@, FromJson::Prop, span),
    decreases v, 2nat,
{
    let k = match get(v, "key") {
        Some(kv) => {
            let is_ident = match get_str(kv, "type") {
                Some(t) => *t == owned("Identifier"),
                None => false,
            };
            if !is_ident {
                return Conv::Fail;
            }
            match get_str(kv, "name") {
                Some(nm) => nm.clone(),
                None => return Conv::Fail,
            }
        },
        None => return Conv::Fail,
    };
    assert(prop_key_name(v@) == Some(k@));
    match get(v, "value") {
        None => Conv::Fail,
        Some(vv) => match node_from_json(vv, FromJson::Expr, span) {
            Conv::Done(e) => {
                let key = name_node(Kind::PropName, span, &k);
                Conv::Done(make(Kind::KeyValue, dummy(), Payload::Empty, two(key, e)))
            },
            Conv::Fail => Conv::Fail,
            Conv::Crash => Conv::Crash,
        },
    }
}

fn var_decl_from_json(v: &JsonValue, span: Span) -> (r: Conv<Node>)
    ensures
        r@ == json_var_decl(v@, span),
    decreases v, 0nat,
{
    let k = match var_kind_parse(get_str(v, "kind")) {
        Some(k) => k,
        None => return Conv::Fail,
    };
    let a = match get(v, "declarations") {
        Some(JsonValue::Array(a)) => a,
        _ => return Conv::Fail,
    };
    let ghost sa = jsons_view(*a);
    proof {
        lemma_view_jsons(a@);
        assert(decreases_to!(*v => *a));
    }
    let mut out: Vec<Node> = Vec::new();
    assert(nodes_view(out) =~= Seq::<SpecNode>::empty());
    assert(sa.take(0) =~= Seq::<SpecJson>::empty());
    assert(json_var_decl(v@, span) == match json_declarators(sa, span) {
        Conv::Done(ds) => Conv::Done(snode(Kind::SVar, span, SpecPayload::Var(k), ds)),
        Conv::Fail => Conv::<SpecNode>::Fail,
        Conv::Crash => Conv::<SpecNode>::Crash,
    });
    let mut i: usize = 0;
    while i < a.len()
        invariant
            i <= a.len(),
            sa == jsons_view(*a),
            sa.len() == a.len(),
            forall|j: int| 0 <= j < a.len() ==> #[trigger] sa[j] == view_json(a@[j]),
            decreases_to!(*v => *a),
            json_declarators(sa.take(i as int), span) == Conv::Done(nodes_view(out)),
            json_var_decl(v@, span) == match json_declarators(sa, span) {
                Conv::Done(ds) => Conv::Done(snode(Kind::SVar, span, SpecPayload::Var(k), ds)),
                Conv::Fail => Conv::<SpecNode>::Fail,
                Conv::Crash => Conv::<SpecNode>::Crash,
            },
        decreases a.len() - i,
    {
        assert(sa.take(i + 1).drop_last() =~= sa.take(i as int));
        assert(sa.take(i + 1).last() == view_json(a@[i as int]));
        proof {
            assert(decreases_to!(*a => a@));
            assert(decreases_to!(a@ => a@[i as int]));
        }
        assert(json_declarators(sa.take(i + 1), span) == match json_declarator(sa[i as int], span) {
            Conv::Done(x) => Conv::Done(nodes_view(out).push(x)),
            Conv::Fail => Conv::<Seq<SpecNode>>::Fail,
            Conv::Crash => Conv::<Seq<SpecNode>>::Crash,
        });
        match declarator_from_json(&a[i], span) {
            Conv::Done(x) => push_node(&mut out, x),
            Conv::Fail => {
                proof {
                    lemma_declarators_stop(sa, i as int + 1, span);
                }
                return Conv::Fail;
            },
            Conv::Crash => {
                proof {
                    lemma_declarators_stop(sa, i as int + 1, span);
                }
                return Conv::Crash;
            },
        }
        i = i + 1;
    }
    assert(sa.take(a.len() as int) =~= sa);
    Conv::Done(make(Kind::SVar, span, Payload::Var(k), out))
}

proof fn lemma_declarators_stop(s: Seq<SpecJson>, k: int, span: Span)
    requires
        0 <= k <= s.len(),
        !(json_declarators(s.take(k), span) is Done),
    ensures
        json_declarators(s, span) == json_declarators(s.take(k), span),
    decreases s.len() - k,
{
    if k < s.len() {
        assert(s.take(k + 1).drop_last() =~= s.take(k));
        lemma_declarators_stop(s, k + 1, span);
    } else {
        assert(s.take(k) =~= s);
    }
}

#[verifier::rlimit(50)]
fn declarator_from_json(d: &JsonValue, span: Span) -> (r: Conv<Node>)
    ensures
        r@ == json_declarator(d@, span),
    decreases d, 0nat,
{
    let name = match get(d, "id") {
        Some(id) => {
            let is_ident = match get_str(id, "type") {
                Some(t) => *t == owned("Identifier"),
                None => false,
            };
            if is_ident {
                get_str(id, "name")
            } else {
                None
            }
        },
        None => None,
    };
    let nm = match name {
        Some(nm) => nm,
        None => return Conv::Fail,
    };
    let id = name_node(Kind::PIdent, span, nm);
    let init = match get(d, "init") {
        None => absent(),
        Some(iv) => if matches!(iv, JsonValue::Null) {
            absent()
        } else {
            match node_from_json(iv, FromJson::Expr, span) {
                Conv::Done(e) => e,
                Conv::Fail => return Conv::Fail,
                Conv::Crash => return Conv::Crash,
            }
        },
    };
    Conv::Done(make(Kind::Declarator, span, Payload::Empty, two(id, init)))
}

fn expr_from_json(v: &JsonValue, span: Span) -> (r: Conv<Node>)
    ensures
        r@ == from_json(v@, FromJson::Expr, span),
    decreases v, 1nat,
{
    let t = match get_str(v, "type") {
        Some(t) => t,
        None => return Conv::Fail,
    };
    if *t == owned("Identifier") {
        match get_str(v, "name") {
            Some(nm) => Conv::Done(name_node(Kind::EIdent, span, nm)),
            None => Conv::Fail,
        }
    } else if *t == owned("Literal") {
        match get(v, "value") {
            Some(JsonValue::Number(num)) => {
                let p = Payload::Number(JsNumber { bits: num.bits, text: num.text.clone() }, None);
                let n = Node { kind: Kind::ENum, span, payload: p, children: Vec::new() };
                assert(n@.children =~= Seq::<SpecNode>::empty());
                Conv::Done(n)
            },
            Some(JsonValue::Str(sv)) => {
                let n = Node { kind: Kind::EStr, span, payload: Payload::Str(sv.clone(), None), children: Vec::new() };
                assert(n@.children =~= Seq::<SpecNode>::empty());
                Conv::Done(n)
            },
            Some(JsonValue::Bool(b)) => {
                let n = Node { kind: Kind::EBool, span, payload: Payload::Bool(*b), children: Vec::new() };
                assert(n@.children =~= Seq::<SpecNode>::empty());
                Conv::Done(n)
            },
            Some(JsonValue::Null) => Conv::Done(leaf(Kind::ENull, span)),
            _ => Conv::Fail,
        }
    } else if *t == owned("ArrayExpression") {
        match get(v, "elements") {
            Some(JsonValue::Array(a)) => match list_from_json(a, FromJson::Elem, span) {
                Conv::Done(xs) => Conv::Done(make(Kind::EArray, span, Payload::Empty, xs)),
                Conv::Fail => Conv::Fail,
                Conv::Crash => Conv::Crash,
            },
            _ => Conv::Fail,
        }
    } else if *t == owned("ArrowFunctionExpression") {
        arrow_from_json(v, span)
    } else if *t == owned("BinaryExpression") {
        binary_from_json(v, span)
    } else if *t == owned("UnaryExpression") {
        unary_from_json(v, span)
    } else if *t == owned("MemberExpression") {
        member_from_json(v, span)
    } else if *t == owned("CallExpression") {
        call_from_json(v, span)
    } else if *t == owned("ParenExpression") {
        match get(v, "expression") {
            None => Conv::Fail,
            Some(ev) => match node_from_json(ev, FromJson::Expr, span) {
                Conv::Done(e) => Conv::Done(make(Kind::EParen, span, Payload::Empty, one(e))),
                Conv::Fail => Conv::Fail,
                Conv::Crash => Conv::Crash,
            },
        }
    } else if *t == owned("ObjectExpression") {
        match get(v, "properties") {
            Some(JsonValue::Array(a)) => match list_from_json(a, FromJson::Prop, span) {
                Conv::Done(xs) => Conv::Done(make(Kind::EObject, span, Payload::Empty, xs)),
                Conv::Fail => Conv::Fail,
                Conv::Crash => Conv::Crash,
            },
            _ => Conv::Fail,
        }
    } else {
        Conv::Fail
    }
}

fn arrow_from_json(v: &JsonValue, span: Span) -> (r: Conv<Node>)
    ensures
        r@ == json_arrow(v@, span),
    decreases v, 0nat,
{
    let params = match get(v, "params") {
        Some(JsonValue::Array(ps)) => match list_from_json(ps, FromJson::Param, span) {
            Conv::Done(xs) => xs,
            Conv::Fail => return Conv::Fail,
            Conv::Crash => return Conv::Crash,
        },
        _ => return Conv::Fail,
    };
    let bv = match get(v, "body") {
        Some(bv) => bv,
        None => return Conv::Fail,
    };
    let is_expr = match get(v, "expression") {
        Some(JsonValue::Bool(b)) => *b,
        _ => false,
    };
    let body = if is_expr {
        match node_from_json(bv, FromJson::Expr, span) {
            Conv::Done(e) => e,
            Conv::Fail => return Conv::Fail,
            Conv::Crash => return Conv::Crash,
        }
    } else {
        match node_from_json(bv, FromJson::Stmt, span) {
            Conv::Done(b) => if b.kind == Kind::SBlock {
                b
            } else {
                return Conv::Fail;
            },
            Conv::Fail => return Conv::Fail,
            Conv::Crash => return Conv::Crash,
        }
    };
    let plist = make(Kind::Params, dummy(), Payload::Empty, params);
    Conv::Done(make(Kind::EArrow, span, Payload::Func { is_async: false, is_generator: false, text: String::new() }, two(plist, body)))
}

fn binary_from_json(v: &JsonValue, span: Span) -> (r: Conv<Node>)
    ensures
        r@ == json_binary(v@, span),
    decreases v, 0nat,
{
    let l = match get(v, "left") {
        None => return Conv::Fail,
        Some(lv) => match node_from_json(lv, FromJson::Expr, span) {
            Conv::Done(e) => e,
            Conv::Fail => return Conv::Fail,
            Conv::Crash => return Conv::Crash,
        },
    };
    let r = match get(v, "right") {
        None => return Conv::Fail,
        Some(rv) => match node_from_json(rv, FromJson::Expr, span) {
            Conv::Done(e) => e,
            Conv::Fail => return Conv::Fail,
            Conv::Crash => return Conv::Crash,
        },
    };
    match get_str(v, "operator") {
        None => Conv::Fail,
        Some(o) => match binary_op_parse(o) {
            Some(op) => Conv::Done(make(Kind::EBin, span, Payload::Binary(op), two(l, r))),
            None => Conv::Fail,
        },
    }
}

fn unary_from_json(v: &JsonValue, span: Span) -> (r: Conv<Node>)
    ensures
        r@ == json_unary(v@, span),
    decreases v, 0nat,
{
    let a = match get(v, "argument") {
        None => return Conv::Fail,
        Some(av) => match node_from_json(av, FromJson::Expr, span) {
            Conv::Done(e) => e,
            Conv::Fail => return Conv::Fail,
            Conv::Crash => return Conv::Crash,
        },
    };
    match get_str(v, "operator") {
        None => Conv::Fail,
        Some(o) => match unary_op_parse(o) {
            Some(op) => Conv::Done(make(Kind::EUnary, span, Payload::Unary(op), one(a))),
            None => Conv::Fail,
        },
    }
}

fn member_from_json(v: &JsonValue, span: Span) -> (r: Conv<Node>)
    ensures
        r@ == json_member(v@, span),
    decreases v, 0nat,
{
    let obj = match get(v, "object") {
        None => return Conv::Fail,
        Some(ov) => match node_from_json(ov, FromJson::Expr, span) {
            Conv::Done(e) => e,
            Conv::Fail => return Conv::Fail,
            Conv::Crash => return Conv::Crash,
        },
    };
    let pv = match get(v, "property") {
        Some(pv) => pv,
        None => return Conv::Fail,
    };
    let computed = match get(v, "computed") {
        Some(JsonValue::Bool(b)) => *b,
        _ => return Conv::Fail,
    };
    let prop = if computed {
        match node_from_json(pv, FromJson::Expr, span) {
            Conv::Done(e) => make(Kind::Computed, span, Payload::Empty, one(e)),
            Conv::Fail => return Conv::Fail,
            Conv::Crash => return Conv::Crash,
        }
    } else {
        match get_str(pv, "name") {
            Some(nm) => name_node(Kind::PropName, span, nm),
            None => return Conv::Fail,
        }
    };
    Conv::Done(make(Kind::EMember, span, Payload::Empty, two(obj, prop)))
}

fn call_from_json(v: &JsonValue, span: Span) -> (r: Conv<Node>)
    ensures
        r@ == json_call(v@, span),
    decreases v, 0nat,
{
    let callee = match get(v, "callee") {
        None => return Conv::Fail,
        Some(cv) => match node_from_json(cv, FromJson::Expr, span) {
            Conv::Done(e) => e,
            Conv::Fail => return Conv::Fail,
            Conv::Crash => return Conv::Crash,
        },
    };
    match get(v, "arguments") {
        Some(JsonValue::Array(a)) => match list_from_json(a, FromJson::Argument, span) {
            Conv::Done(args) => {
                let alist = make(Kind::Args, dummy(), Payload::Empty, args);
                Conv::Done(make(Kind::ECall, span, Payload::Empty, two(callee, alist)))
            },
            Conv::Fail => Conv::Fail,
            Conv::Crash => Conv::Crash,
        },
        _ => Conv::Fail,
    }
}

/// A list read item by item, stopping at the first item that does not convert.
pub fn list_from_json(a: &Vec<JsonValue>, m: FromJson, span: Span) -> (r: Conv<Vec<Node>>)
    ensures
        conv_nodes(r) == from_json_list(jsons_view(*a), m, span),
    decreases a,
{
    let mut out: Vec<Node> = Vec::new();
    let mut i: usize = 0;
    proof {
        lemma_view_jsons(a@);
    }
    while i < a.len()
        invariant
            i <= a.len(),
            view_jsons(a@).len() == a.len(),
            forall|j: int| 0 <= j < a.len() ==> #[trigger] view_jsons(a@)[j] == view_json(a@[j]),
            from_json_list(view_jsons(a@).take(i as int), m, span) == Conv::Done(nodes_view(out)),
        decreases a.len() - i,
    {
        assert(view_jsons(a@).take(i + 1).drop_last() =~= view_jsons(a@).take(i as int));
        match node_from_json(&a[i], m, span) {
            Conv::Done(x) => {
                push_node(&mut out, x);
            },
            Conv::Fail => {
                proof {
                    lemma_list_stops(view_jsons(a@), i as int + 1, m, span);
                }
                return Conv::Fail;
            },
            Conv::Crash => {
                proof {
                    lemma_list_stops(view_jsons(a@), i as int + 1, m, span);
                }
                return Conv::Crash;
            },
        }
        i = i + 1;
    }
    assert(view_jsons(a@).take(a.len() as int) =~= view_jsons(a@));
    Conv::Done(out)
}

/// Once a prefix of a list fails to convert, so does the whole list.
proof fn lemma_list_stops(s: Seq<SpecJson>, k: int, m: FromJson, span: Span)
    requires
        0 <= k <= s.len(),
        !(from_json_list(s.take(k), m, span) is Done),
    ensures
        from_json_list(s, m, span) == from_json_list(s.take(k), m, span),
    decreases s.len() - k,
{
    if k < s.len() {
        assert(s.take(k + 1).drop_last() =~= s.take(k));
        lemma_list_stops(s, k + 1, m, span);
    } else {
        assert(s.take(k) =~= s);
    }
}

/// The statements of a block body: each must convert.
pub fn stmts_from_json(a: &Vec<JsonValue>, span: Span) -> (r: Conv<Vec<Node>>)
    ensures
        conv_nodes(r) == from_json_stmts(jsons_view(*a), span),
    decreases a,
{
    let mut out: Vec<Node> = Vec::new();
    let mut i: usize = 0;
    proof {
        lemma_view_jsons(a@);
    }
    while i < a.len()
        invariant
            i <= a.len(),
            view_jsons(a@).len() == a.len(),
            forall|j: int| 0 <= j < a.len() ==> #[trigger] view_jsons(a@)[j] == view_json(a@[j]),
            from_json_stmts(view_jsons(a@).take(i as int), span) == Conv::Done(nodes_view(out)),
        decreases a.len() - i,
    {
        assert(view_jsons(a@).take(i + 1).drop_last() =~= view_jsons(a@).take(i as int));
        match node_from_json(&a[i], FromJson::Stmt, span) {
            Conv::Done(x) => {
                push_node(&mut out, x);
            },
            Conv::Fail => {
                proof {
                    lemma_stmts_stop(view_jsons(a@), i as int + 1, span);
                }
                return Conv::Fail;
            },
            Conv::Crash => {
                proof {
                    lemma_stmts_stop(view_jsons(a@), i as int + 1, span);
                }
                return Conv::Crash;
            },
        }
        i = i + 1;
    }
    assert(view_jsons(a@).take(a.len() as int) =~= view_jsons(a@));
    Conv::Done(out)
}

proof fn lemma_stmts_stop(s: Seq<SpecJson>, k: int, span: Span)
    requires
        0 <= k <= s.len(),
        !(from_json_stmts(s.take(k), span) is Done),
    ensures
        from_json_stmts(s, span) == from_json_stmts(s.take(k), span),
    decreases s.len() - k,
{
    if k < s.len() {
        assert(s.take(k + 1).drop_last() =~= s.take(k));
        lemma_stmts_stop(s, k + 1, span);
    } else {
        assert(s.take(k) =~= s);
    }
}

/// `json_to_expr`: the expression a macro result stands for, spanned at
/// `target_span`; `None` when the JSON has another shape.
pub fn json_to_expr(val: &JsonValue, target_span: Span) -> (r: Option<Node>)
    requires
        !(from_json(val@, FromJson::Expr, target_span) is Crash),
    ensures
        match r {
            Some(e) => from_json(val@, FromJson::Expr, target_span) == Conv::Done(e@),
            None => from_json(val@, FromJson::Expr, target_span) is Fail,
        },
{
    match node_from_json(val, FromJson::Expr, target_span) {
        Conv::Done(e) => Some(e),
        _ => None,
    }
}

/// `json_to_stmt`: the statement a macro result stands for, spanned at
/// `target_span`; `None` when the JSON has another shape.
pub fn json_to_stmt(val: &JsonValue, target_span: Span) -> (r: Option<Node>)
    requires
        !(from_json(val@, FromJson::Stmt, target_span) is Crash),
    ensures
        match r {
            Some(s) => from_json(val@, FromJson::Stmt, target_span) == Conv::Done(s@),
            None => from_json(val@, FromJson::Stmt, target_span) is Fail,
        },
{
    match node_from_json(val, FromJson::Stmt, target_span) {
        Conv::Done(s) => Some(s),
        _ => None,
    }
}

/// Whether turning `val` into syntax would meet a malformed arrow parameter.
pub fn json_conversion_crashes(val: &JsonValue, m: FromJson, target_span: Span) -> (b: bool)
    ensures
        b == (from_json(val@, m, target_span) is Crash),
{
    match node_from_json(val, m, target_span) {
        Conv::Crash => true,
        _ => false,
    }
}

/// A node read back from JSON as an expression or a statement stands at the
/// span it was read at (for a macro result, the span of the macro call).
pub proof fn lemma_from_json_at_span(v: SpecJson, m: FromJson, span: Span)
    requires
        m == FromJson::Expr || m == FromJson::Stmt,
    ensures
        from_json(v, m, span) matches Conv::Done(n) ==> n.span == span,
{
    assert(json_var_decl(v, span) matches Conv::Done(n) ==> n.span == span);
    assert(json_arrow(v, span) matches Conv::Done(n) ==> n.span == span);
    assert(json_binary(v, span) matches Conv::Done(n) ==> n.span == span);
    assert(json_unary(v, span) matches Conv::Done(n) ==> n.span == span);
    assert(json_member(v, span) matches Conv::Done(n) ==> n.span == span);
    assert(json_call(v, span) matches Conv::Done(n) ==> n.span == span);
}

/// Every node of a tree stands at `span`, or at no span (the nodes that
/// syntax has no place for: lists, arguments, absent parts).
pub open spec fn spans_at(n: SpecNode, span: Span) -> bool
    decreases n, 1nat,
{
    (n.span == span || n.span == dummy_span()) && spans_list(n.children, span)
}

/// Every tree of a list stands at `span` or at no span, node by node.
pub open spec fn spans_list(s: Seq<SpecNode>, span: Span) -> bool
    decreases s, 0nat,
{
    if s.len() == 0 {
        true
    } else {
        proof {
            assert(decreases_to!(s => s.last()));
        }
        spans_list(s.drop_last(), span) && spans_at(s.last(), span)
    }
}

/// Every tree of a list stands at `span` or at no span.
pub open spec fn all_spans_at(s: Seq<SpecNode>, span: Span) -> bool {
    forall|i: int| 0 <= i < s.len() ==> #[trigger] spans_at(s[i], span)
}

proof fn lemma_spans_list(s: Seq<SpecNode>, span: Span)
    requires
        all_spans_at(s, span),
    ensures
        spans_list(s, span),
    decreases s.len(),
{
    if s.len() > 0 {
        assert forall|i: int| 0 <= i < s.drop_last().len() implies #[trigger] spans_at(s.drop_last()[i], span) by {
            assert(s.drop_last()[i] == s[i]);
        }
        lemma_spans_list(s.drop_last(), span);
        assert(spans_at(s[s.len() - 1], span));
    }
}

proof fn lemma_spans_one(a: SpecNode, span: Span)
    requires
        spans_at(a, span),
    ensures
        all_spans_at(seq![a], span),
{
    let sq = seq![a];
    assert forall|i: int| 0 <= i < sq.len() implies #[trigger] spans_at(sq[i], span) by {
        assert(sq[i] == a);
    }
}

proof fn lemma_spans_two(a: SpecNode, b: SpecNode, span: Span)
    requires
        spans_at(a, span),
        spans_at(b, span),
    ensures
        all_spans_at(seq![a, b], span),
{
    let sq = seq![a, b];
    assert forall|i: int| 0 <= i < sq.len() implies #[trigger] spans_at(sq[i], span) by {
        if i == 0 {
            assert(sq[i] == a);
        } else {
            assert(sq[i] == b);
        }
    }
}

proof fn lemma_spans_three(a: SpecNode, b: SpecNode, c: SpecNode, span: Span)
    requires
        spans_at(a, span),
        spans_at(b, span),
        spans_at(c, span),
    ensures
        all_spans_at(seq![a, b, c], span),
{
    let sq = seq![a, b, c];
    assert forall|i: int| 0 <= i < sq.len() implies #[trigger] spans_at(sq[i], span) by {
        if i == 0 {
            assert(sq[i] == a);
        } else if i == 1 {
            assert(sq[i] == b);
        } else {
            assert(sq[i] == c);
        }
    }
}

proof fn lemma_spans_push(xs: Seq<SpecNode>, x: SpecNode, span: Span)
    requires
        all_spans_at(xs, span),
        spans_at(x, span),
    ensures
        all_spans_at(xs.push(x), span),
{
    let ys = xs.push(x);
    assert forall|i: int| 0 <= i < ys.len() implies #[trigger] spans_at(ys[i], span) by {
        if i < xs.len() {
            assert(ys[i] == xs[i]);
        }
    }
}

proof fn lemma_spans_node(kind: Kind, at: Span, payload: SpecPayload, cs: Seq<SpecNode>, span: Span)
    requires
        at == span || at == dummy_span(),
        all_spans_at(cs, span),
    ensures
        spans_at(snode(kind, at, payload, cs), span),
{
    lemma_spans_list(cs, span);
}

proof fn lemma_spans_leaf(kind: Kind, at: Span, payload: SpecPayload, span: Span)
    requires
        at == span || at == dummy_span(),
    ensures
        spans_at(sleaf(kind, at, payload), span),
{
    lemma_spans_node(kind, at, payload, Seq::empty(), span);
}

#[verifier::rlimit(80)]
#[verifier::spinoff_prover]
proof fn lemma_from_json_spans(v: SpecJson, m: FromJson, span: Span)
    ensures
        from_json(v, m, span) matches Conv::Done(n) ==> spans_at(n, span),
    decreases v, from_json_rank(m),
{
    lemma_jget_decreases(v, "test"@);
    lemma_jget_decreases(v, "consequent"@);
    lemma_jget_decreases(v, "alternate"@);
    lemma_jget_decreases(v, "expression"@);
    lemma_jget_decreases(v, "argument"@);
    lemma_jget_decreases(v, "value"@);
    lemma_jget_array_decreases(v, "body"@);
    lemma_jget_array_decreases(v, "elements"@);
    lemma_jget_array_decreases(v, "properties"@);
    lemma_spans_leaf(Kind::Absent, dummy_span(), SpecPayload::Empty, span);
    match m {
        FromJson::Elem => {
            lemma_spans_leaf(Kind::Hole, dummy_span(), SpecPayload::Empty, span);
            lemma_from_json_spans(v, FromJson::Expr, span);
            if let Conv::Done(e) = from_json(v, FromJson::Expr, span) {
                lemma_spans_one(e, span);
                lemma_spans_node(Kind::Arg, dummy_span(), SpecPayload::Empty, seq![e], span);
            }
        },
        FromJson::Argument => {
            lemma_from_json_spans(v, FromJson::Expr, span);
            if let Conv::Done(e) = from_json(v, FromJson::Expr, span) {
                lemma_spans_one(e, span);
                lemma_spans_node(Kind::Arg, dummy_span(), SpecPayload::Empty, seq![e], span);
            }
        },
        FromJson::Param => {
            if let Some(nm) = jget_str(v, "name"@) {
                lemma_spans_leaf(Kind::PIdent, span, SpecPayload::Name(nm), span);
            }
        },
        FromJson::Prop => {
            if let (Some(k), Some(vv)) = (prop_key_name(v), jget(v, "value"@)) {
                lemma_from_json_spans(vv, FromJson::Expr, span);
                if let Conv::Done(e) = from_json(vv, FromJson::Expr, span) {
                    lemma_spans_leaf(Kind::PropName, span, SpecPayload::Name(k), span);
                    lemma_spans_two(sleaf(Kind::PropName, span, SpecPayload::Name(k)), e, span);
                    lemma_spans_node(Kind::KeyValue, dummy_span(), SpecPayload::Empty,
                        seq![sleaf(Kind::PropName, span, SpecPayload::Name(k)), e], span);
                }
            }
        },
        FromJson::Stmt => {
            if let Some(a) = jas_array(jget(v, "body"@)) {
                lemma_stmts_spans(a, span);
                if let Conv::Done(xs) = from_json_stmts(a, span) {
                    lemma_spans_node(Kind::SBlock, span, SpecPayload::Empty, xs, span);
                }
            }
            if let Some(tv) = jget(v, "test"@) {
                lemma_from_json_spans(tv, FromJson::Expr, span);
                if let Some(cv) = jget(v, "consequent"@) {
                    lemma_from_json_spans(cv, FromJson::Stmt, span);
                    if let (Conv::Done(test), Conv::Done(cons)) = (from_json(tv, FromJson::Expr, span), from_json(cv, FromJson::Stmt, span)) {
                        let none = sleaf(Kind::Absent, dummy_span(), SpecPayload::Empty);
                        lemma_spans_three(test, cons, none, span);
                        lemma_spans_node(Kind::SIf, span, SpecPayload::Empty, seq![test, cons, none], span);
                        if let Some(av) = jget(v, "alternate"@) {
                            lemma_from_json_spans(av, FromJson::Stmt, span);
                            if let Conv::Done(alt) = from_json(av, FromJson::Stmt, span) {
                                lemma_spans_three(test, cons, alt, span);
                                lemma_spans_node(Kind::SIf, span, SpecPayload::Empty, seq![test, cons, alt], span);
                            }
                        }
                    }
                }
            }
            if let Some(ev) = jget(v, "expression"@) {
                lemma_from_json_spans(ev, FromJson::Expr, span);
                if let Conv::Done(e) = from_json(ev, FromJson::Expr, span) {
                    lemma_spans_one(e, span);
                    lemma_spans_node(Kind::SExpr, span, SpecPayload::Empty, seq![e], span);
                }
            }
            lemma_from_json_spans(v, FromJson::Expr, span);
            if let Conv::Done(e) = from_json(v, FromJson::Expr, span) {
                lemma_spans_one(e, span);
                lemma_spans_node(Kind::SExpr, span, SpecPayload::Empty, seq![e], span);
            }
            lemma_var_decl_spans(v, span);
            if let Some(av) = jget(v, "argument"@) {
                lemma_from_json_spans(av, FromJson::Expr, span);
                if let Conv::Done(e) = from_json(av, FromJson::Expr, span) {
                    lemma_spans_one(e, span);
                    lemma_spans_node(Kind::SReturn, span, SpecPayload::Empty, seq![e], span);
                }
            }
            let none = sleaf(Kind::Absent, dummy_span(), SpecPayload::Empty);
            lemma_spans_one(none, span);
            lemma_spans_node(Kind::SReturn, span, SpecPayload::Empty, seq![none], span);
        },
        FromJson::Expr => {
            if let Some(nm) = jget_str(v, "name"@) {
                lemma_spans_leaf(Kind::EIdent, span, SpecPayload::Name(nm), span);
            }
            match jget(v, "value"@) {
                Some(SpecJson::Number(num)) => lemma_spans_leaf(Kind::ENum, span, SpecPayload::Number(num, None), span),
                Some(SpecJson::Str(sv)) => lemma_spans_leaf(Kind::EStr, span, SpecPayload::Str(sv, None), span),
                Some(SpecJson::Bool(b)) => lemma_spans_leaf(Kind::EBool, span, SpecPayload::Bool(b), span),
                _ => lemma_spans_leaf(Kind::ENull, span, SpecPayload::Empty, span),
            }
            if let Some(a) = jas_array(jget(v, "elements"@)) {
                lemma_list_spans(a, FromJson::Elem, span);
                if let Conv::Done(xs) = from_json_list(a, FromJson::Elem, span) {
                    lemma_spans_node(Kind::EArray, span, SpecPayload::Empty, xs, span);
                }
            }
            if let Some(a) = jas_array(jget(v, "properties"@)) {
                lemma_list_spans(a, FromJson::Prop, span);
                if let Conv::Done(xs) = from_json_list(a, FromJson::Prop, span) {
                    lemma_spans_node(Kind::EObject, span, SpecPayload::Empty, xs, span);
                }
            }
            if let Some(ev) = jget(v, "expression"@) {
                lemma_from_json_spans(ev, FromJson::Expr, span);
                if let Conv::Done(e) = from_json(ev, FromJson::Expr, span) {
                    lemma_spans_one(e, span);
                    lemma_spans_node(Kind::EParen, span, SpecPayload::Empty, seq![e], span);
                }
            }
            lemma_arrow_spans(v, span);
            lemma_binary_spans(v, span);
            lemma_unary_spans(v, span);
            lemma_member_spans(v, span);
            lemma_call_spans(v, span);
        },
    }
}

proof fn lemma_list_spans(s: Seq<SpecJson>, m: FromJson, span: Span)
    ensures
        from_json_list(s, m, span) matches Conv::Done(xs) ==> all_spans_at(xs, span),
    decreases s,
{
    if s.len() > 0 {
        lemma_list_spans(s.drop_last(), m, span);
        lemma_from_json_spans(s.last(), m, span);
        if let (Conv::Done(xs), Conv::Done(x)) = (from_json_list(s.drop_last(), m, span), from_json(s.last(), m, span)) {
            lemma_spans_push(xs, x, span);
        }
    }
}

proof fn lemma_stmts_spans(s: Seq<SpecJson>, span: Span)
    ensures
        from_json_stmts(s, span) matches Conv::Done(xs) ==> all_spans_at(xs, span),
    decreases s,
{
    if s.len() > 0 {
        lemma_stmts_spans(s.drop_last(), span);
        lemma_from_json_spans(s.last(), FromJson::Stmt, span);
        if let (Conv::Done(xs), Conv::Done(x)) = (from_json_stmts(s.drop_last(), span), from_json(s.last(), FromJson::Stmt, span)) {
            lemma_spans_push(xs, x, span);
        }
    }
}

proof fn lemma_var_decl_spans(v: SpecJson, span: Span)
    ensures
        json_var_decl(v, span) matches Conv::Done(n) ==> spans_at(n, span),
    decreases v, 0nat,
{
    lemma_jget_array_decreases(v, "declarations"@);
    if let (Some(k), Some(a)) = (var_kind_of(jget_str(v, "kind"@)), jas_array(jget(v, "declarations"@))) {
        lemma_declarators_spans(a, span);
        if let Conv::Done(ds) = json_declarators(a, span) {
            lemma_spans_node(Kind::SVar, span, SpecPayload::Var(k), ds, span);
        }
    }
}

proof fn lemma_declarators_spans(a: Seq<SpecJson>, span: Span)
    ensures
        json_declarators(a, span) matches Conv::Done(xs) ==> all_spans_at(xs, span),
    decreases a, 0nat,
{
    if a.len() > 0 {
        lemma_declarators_spans(a.drop_last(), span);
        lemma_declarator_spans(a.last(), span);
        if let (Conv::Done(xs), Conv::Done(x)) = (json_declarators(a.drop_last(), span), json_declarator(a.last(), span)) {
            lemma_spans_push(xs, x, span);
        }
    }
}

#[verifier::rlimit(40)]
proof fn lemma_declarator_spans(d: SpecJson, span: Span)
    ensures
        json_declarator(d, span) matches Conv::Done(n) ==> spans_at(n, span),
    decreases d, 0nat,
{
    lemma_jget_decreases(d, "init"@);
    if let Some(nm) = declarator_name(d) {
        let id = sleaf(Kind::PIdent, span, SpecPayload::Name(nm));
        let none = sleaf(Kind::Absent, dummy_span(), SpecPayload::Empty);
        lemma_spans_leaf(Kind::PIdent, span, SpecPayload::Name(nm), span);
        lemma_spans_leaf(Kind::Absent, dummy_span(), SpecPayload::Empty, span);
        lemma_spans_two(id, none, span);
        lemma_spans_node(Kind::Declarator, span, SpecPayload::Empty, seq![id, none], span);
        if let Some(iv) = jget(d, "init"@) {
            lemma_from_json_spans(iv, FromJson::Expr, span);
            if let Conv::Done(e) = from_json(iv, FromJson::Expr, span) {
                lemma_spans_two(id, e, span);
                lemma_spans_node(Kind::Declarator, span, SpecPayload::Empty, seq![id, e], span);
            }
        }
    }
}

proof fn lemma_arrow_spans(v: SpecJson, span: Span)
    ensures
        json_arrow(v, span) matches Conv::Done(n) ==> spans_at(n, span),
    decreases v, 0nat,
{
    lemma_jget_decreases(v, "body"@);
    lemma_jget_array_decreases(v, "params"@);
    if let (Some(ps), Some(bv)) = (jas_array(jget(v, "params"@)), jget(v, "body"@)) {
        lemma_list_spans(ps, FromJson::Param, span);
        lemma_from_json_spans(bv, FromJson::Expr, span);
        lemma_from_json_spans(bv, FromJson::Stmt, span);
        if let Conv::Done(params) = from_json_list(ps, FromJson::Param, span) {
            lemma_spans_node(Kind::Params, dummy_span(), SpecPayload::Empty, params, span);
            let pn = snode(Kind::Params, dummy_span(), SpecPayload::Empty, params);
            let f = SpecPayload::Func { is_async: false, is_generator: false, text: Seq::empty() };
            if let Conv::Done(e) = from_json(bv, FromJson::Expr, span) {
                lemma_spans_two(pn, e, span);
                lemma_spans_node(Kind::EArrow, span, f, seq![pn, e], span);
            }
            if let Conv::Done(b) = from_json(bv, FromJson::Stmt, span) {
                lemma_spans_two(pn, b, span);
                lemma_spans_node(Kind::EArrow, span, f, seq![pn, b], span);
            }
        }
    }
}

proof fn lemma_binary_spans(v: SpecJson, span: Span)
    ensures
        json_binary(v, span) matches Conv::Done(n) ==> spans_at(n, span),
    decreases v, 0nat,
{
    lemma_jget_decreases(v, "left"@);
    lemma_jget_decreases(v, "right"@);
    if let (Some(lv), Some(rv)) = (jget(v, "left"@), jget(v, "right"@)) {
        lemma_from_json_spans(lv, FromJson::Expr, span);
        lemma_from_json_spans(rv, FromJson::Expr, span);
        if let (Conv::Done(l), Conv::Done(r), Some(o)) = (from_json(lv, FromJson::Expr, span), from_json(rv, FromJson::Expr, span), jget_str(v, "operator"@)) {
            if let Some(op) = binary_op_of(o) {
                lemma_spans_two(l, r, span);
                lemma_spans_node(Kind::EBin, span, SpecPayload::Binary(op), seq![l, r], span);
            }
        }
    }
}

proof fn lemma_unary_spans(v: SpecJson, span: Span)
    ensures
        json_unary(v, span) matches Conv::Done(n) ==> spans_at(n, span),
    decreases v, 0nat,
{
    lemma_jget_decreases(v, "argument"@);
    if let Some(av) = jget(v, "argument"@) {
        lemma_from_json_spans(av, FromJson::Expr, span);
        if let (Conv::Done(a), Some(o)) = (from_json(av, FromJson::Expr, span), jget_str(v, "operator"@)) {
            if let Some(op) = unary_op_of(o) {
                lemma_spans_one(a, span);
                lemma_spans_node(Kind::EUnary, span, SpecPayload::Unary(op), seq![a], span);
            }
        }
    }
}

proof fn lemma_member_spans(v: SpecJson, span: Span)
    ensures
        json_member(v, span) matches Conv::Done(n) ==> spans_at(n, span),
    decreases v, 0nat,
{
    lemma_jget_decreases(v, "object"@);
    lemma_jget_decreases(v, "property"@);
    if let (Some(ov), Some(pv)) = (jget(v, "object"@), jget(v, "property"@)) {
        lemma_from_json_spans(ov, FromJson::Expr, span);
        lemma_from_json_spans(pv, FromJson::Expr, span);
        if let Conv::Done(obj) = from_json(ov, FromJson::Expr, span) {
            if let Conv::Done(pe) = from_json(pv, FromJson::Expr, span) {
                lemma_spans_one(pe, span);
                lemma_spans_node(Kind::Computed, span, SpecPayload::Empty, seq![pe], span);
                let c = snode(Kind::Computed, span, SpecPayload::Empty, seq![pe]);
                lemma_spans_two(obj, c, span);
                lemma_spans_node(Kind::EMember, span, SpecPayload::Empty, seq![obj, c], span);
            }
            if let Some(nm) = jget_str(pv, "name"@) {
                let p = sleaf(Kind::PropName, span, SpecPayload::Name(nm));
                lemma_spans_leaf(Kind::PropName, span, SpecPayload::Name(nm), span);
                lemma_spans_two(obj, p, span);
                lemma_spans_node(Kind::EMember, span, SpecPayload::Empty, seq![obj, p], span);
            }
        }
    }
}

proof fn lemma_call_spans(v: SpecJson, span: Span)
    ensures
        json_call(v, span) matches Conv::Done(n) ==> spans_at(n, span),
    decreases v, 0nat,
{
    lemma_jget_decreases(v, "callee"@);
    lemma_jget_array_decreases(v, "arguments"@);
    if let (Some(cv), Some(a)) = (jget(v, "callee"@), jas_array(jget(v, "arguments"@))) {
        lemma_from_json_spans(cv, FromJson::Expr, span);
        lemma_list_spans(a, FromJson::Argument, span);
        if let (Conv::Done(callee), Conv::Done(args)) = (from_json(cv, FromJson::Expr, span), from_json_list(a, FromJson::Argument, span)) {
            lemma_spans_node(Kind::Args, dummy_span(), SpecPayload::Empty, args, span);
            let an = snode(Kind::Args, dummy_span(), SpecPayload::Empty, args);
            lemma_spans_two(callee, an, span);
            lemma_spans_node(Kind::ECall, span, SpecPayload::Empty, seq![callee, an], span);
        }
    }
}

/// Every node that a JSON value is read back into stands at the span it was
/// read at (for a macro result, the span of the macro call), or at no span
/// where it is a list, an argument or an absent part.
pub proof fn lemma_from_json_spans_at(v: SpecJson, m: FromJson, span: Span)
    ensures
        from_json(v, m, span) matches Conv::Done(n) ==> spans_at(n, span),
{
    lemma_from_json_spans(v, m, span);
}

/// The operator texts are JavaScript's own tokens: each binary operator is
/// written as it is in source.
pub proof fn lemma_binary_operator_tokens()
    ensures
        binary_op_text(BinaryOp::EqEq) == "=="@,
        binary_op_text(BinaryOp::NotEq) == "!="@,
        binary_op_text(BinaryOp::EqEqEq) == "==="@,
        binary_op_text(BinaryOp::NotEqEq) == "!=="@,
        binary_op_text(BinaryOp::Lt) == "<"@,
        binary_op_text(BinaryOp::LtEq) == "<="@,
        binary_op_text(BinaryOp::Gt) == ">"@,
        binary_op_text(BinaryOp::GtEq) == ">="@,
        binary_op_text(BinaryOp::LShift) == "<<"@,
        binary_op_text(BinaryOp::RShift) == ">>"@,
        binary_op_text(BinaryOp::ZeroFillRShift) == ">>>"@,
        binary_op_text(BinaryOp::Add) == "+"@,
        binary_op_text(BinaryOp::Sub) == "-"@,
        binary_op_text(BinaryOp::Mul) == "*"@,
        binary_op_text(BinaryOp::Div) == "/"@,
        binary_op_text(BinaryOp::Mod) == "%"@,
        binary_op_text(BinaryOp::BitOr) == "|"@,
        binary_op_text(BinaryOp::BitXor) == "^"@,
        binary_op_text(BinaryOp::BitAnd) == "&"@,
        binary_op_text(BinaryOp::LogicalOr) == "||"@,
        binary_op_text(BinaryOp::LogicalAnd) == "&&"@,
        binary_op_text(BinaryOp::In) == "in"@,
        binary_op_text(BinaryOp::InstanceOf) == "instanceof"@,
        binary_op_text(BinaryOp::Exp) == "**"@,
        binary_op_text(BinaryOp::NullishCoalescing) == "??"@,
{
}

/// The unary operator texts are JavaScript's own tokens.
pub proof fn lemma_unary_operator_tokens()
    ensures
        unary_op_text(UnaryOp::Minus) == "-"@,
        unary_op_text(UnaryOp::Plus) == "+"@,
        unary_op_text(UnaryOp::Bang) == "!"@,
        unary_op_text(UnaryOp::Tilde) == "~"@,
        unary_op_text(UnaryOp::TypeOf) == "typeof"@,
        unary_op_text(UnaryOp::Void) == "void"@,
        unary_op_text(UnaryOp::Delete) == "delete"@,
{
}

/// Reading an operator text back gives the operator written with it, and
/// only that one: every binary operator survives the trip through its text.
pub proof fn lemma_binary_operator_read_back(t: Seq<char>, op: BinaryOp)
    ensures
        binary_op_of(t) == Some(op) <==> t == binary_op_text(op),
{
    reveal_strlit("!");
    reveal_strlit("!=");
    reveal_strlit("!==");
    reveal_strlit("%");
    reveal_strlit("&");
    reveal_strlit("&&");
    reveal_strlit("*");
    reveal_strlit("**");
    reveal_strlit("+");
    reveal_strlit("-");
    reveal_strlit("/");
    reveal_strlit("<");
    reveal_strlit("<<");
    reveal_strlit("<=");
    reveal_strlit("==");
    reveal_strlit("===");
    reveal_strlit(">");
    reveal_strlit(">=");
    reveal_strlit(">>");
    reveal_strlit(">>>");
    reveal_strlit("??");
    reveal_strlit("^");
    reveal_strlit("delete");
    reveal_strlit("in");
    reveal_strlit("instanceof");
    reveal_strlit("typeof");
    reveal_strlit("void");
    reveal_strlit("|");
    reveal_strlit("||");
    reveal_strlit("~");
    if t == binary_op_text(op) {
        match op {
        BinaryOp::EqEq => { assert("=="@.len() != "==="@.len()); },
        BinaryOp::NotEq => { assert("!="@.len() != "==="@.len()); assert("!="@[0] != "=="@[0]); assert("!="@.len() != "+"@.len()); assert("!="@.len() != "-"@.len()); assert("!="@.len() != "*"@.len()); assert("!="@.len() != "/"@.len()); assert("!="@.len() != ">"@.len()); assert("!="@.len() != "<"@.len()); },
        BinaryOp::EqEqEq => {},
        BinaryOp::NotEqEq => { assert("!=="@[0] != "==="@[0]); assert("!=="@.len() != "=="@.len()); assert("!=="@.len() != "+"@.len()); assert("!=="@.len() != "-"@.len()); assert("!=="@.len() != "*"@.len()); assert("!=="@.len() != "/"@.len()); assert("!=="@.len() != ">"@.len()); assert("!=="@.len() != "<"@.len()); assert("!=="@.len() != "!="@.len()); },
        BinaryOp::Lt => { assert("<"@.len() != "==="@.len()); assert("<"@.len() != "=="@.len()); assert("<"@[0] != "+"@[0]); assert("<"@[0] != "-"@[0]); assert("<"@[0] != "*"@[0]); assert("<"@[0] != "/"@[0]); assert("<"@[0] != ">"@[0]); },
        BinaryOp::LtEq => { assert("<="@.len() != "==="@.len()); assert("<="@[0] != "=="@[0]); assert("<="@.len() != "+"@.len()); assert("<="@.len() != "-"@.len()); assert("<="@.len() != "*"@.len()); assert("<="@.len() != "/"@.len()); assert("<="@.len() != ">"@.len()); assert("<="@.len() != "<"@.len()); assert("<="@[0] != "!="@[0]); assert("<="@.len() != "!=="@.len()); },
        BinaryOp::Gt => { assert(">"@.len() != "==="@.len()); assert(">"@.len() != "=="@.len()); assert(">"@[0] != "+"@[0]); assert(">"@[0] != "-"@[0]); assert(">"@[0] != "*"@[0]); assert(">"@[0] != "/"@[0]); },
        BinaryOp::GtEq => { assert(">="@.len() != "==="@.len()); assert(">="@[0] != "=="@[0]); assert(">="@.len() != "+"@.len()); assert(">="@.len() != "-"@.len()); assert(">="@.len() != "*"@.len()); assert(">="@.len() != "/"@.len()); assert(">="@.len() != ">"@.len()); assert(">="@.len() != "<"@.len()); assert(">="@[0] != "!="@[0]); assert(">="@.len() != "!=="@.len()); assert(">="@[0] != "<="@[0]); },
        BinaryOp::LShift => { assert("<<"@.len() != "==="@.len()); assert("<<"@[0] != "=="@[0]); assert("<<"@.len() != "+"@.len()); assert("<<"@.len() != "-"@.len()); assert("<<"@.len() != "*"@.len()); assert("<<"@.len() != "/"@.len()); assert("<<"@.len() != ">"@.len()); assert("<<"@.len() != "<"@.len()); assert("<<"@[0] != "!="@[0]); assert("<<"@.len() != "!=="@.len()); assert("<<"@[1] != "<="@[1]); assert("<<"@[0] != ">="@[0]); },
        BinaryOp::RShift => { assert(">>"@.len() != "==="@.len()); assert(">>"@[0] != "=="@[0]); assert(">>"@.len() != "+"@.len()); assert(">>"@.len() != "-"@.len()); assert(">>"@.len() != "*"@.len()); assert(">>"@.len() != "/"@.len()); assert(">>"@.len() != ">"@.len()); assert(">>"@.len() != "<"@.len()); assert(">>"@[0] != "!="@[0]); assert(">>"@.len() != "!=="@.len()); assert(">>"@[0] != "<="@[0]); assert(">>"@[1] != ">="@[1]); assert(">>"@[0] != "<<"@[0]); },
        BinaryOp::ZeroFillRShift => { assert(">>>"@[0] != "==="@[0]); assert(">>>"@.len() != "=="@.len()); assert(">>>"@.len() != "+"@.len()); assert(">>>"@.len() != "-"@.len()); assert(">>>"@.len() != "*"@.len()); assert(">>>"@.len() != "/"@.len()); assert(">>>"@.len() != ">"@.len()); assert(">>>"@.len() != "<"@.len()); assert(">>>"@.len() != "!="@.len()); assert(">>>"@[0] != "!=="@[0]); assert(">>>"@.len() != "<="@.len()); assert(">>>"@.len() != ">="@.len()); assert(">>>"@.len() != "<<"@.len()); assert(">>>"@.len() != ">>"@.len()); },
        BinaryOp::Add => { assert("+"@.len() != "==="@.len()); assert("+"@.len() != "=="@.len()); },
        BinaryOp::Sub => { assert("-"@.len() != "==="@.len()); assert("-"@.len() != "=="@.len()); assert("-"@[0] != "+"@[0]); },
        BinaryOp::Mul => { assert("*"@.len() != "==="@.len()); assert("*"@.len() != "=="@.len()); assert("*"@[0] != "+"@[0]); assert("*"@[0] != "-"@[0]); },
        BinaryOp::Div => { assert("/"@.len() != "==="@.len()); assert("/"@.len() != "=="@.len()); assert("/"@[0] != "+"@[0]); assert("/"@[0] != "-"@[0]); assert("/"@[0] != "*"@[0]); },
        BinaryOp::Mod => { assert("%"@.len() != "==="@.len()); assert("%"@.len() != "=="@.len()); assert("%"@[0] != "+"@[0]); assert("%"@[0] != "-"@[0]); assert("%"@[0] != "*"@[0]); assert("%"@[0] != "/"@[0]); assert("%"@[0] != ">"@[0]); assert("%"@[0] != "<"@[0]); assert("%"@.len() != "!="@.len()); assert("%"@.len() != "!=="@.len()); assert("%"@.len() != "<="@.len()); assert("%"@.len() != ">="@.len()); assert("%"@.len() != "<<"@.len()); assert("%"@.len() != ">>"@.len()); assert("%"@.len() != ">>>"@.len()); },
        BinaryOp::BitOr => { assert("|"@.len() != "==="@.len()); assert("|"@.len() != "=="@.len()); assert("|"@[0] != "+"@[0]); assert("|"@[0] != "-"@[0]); assert("|"@[0] != "*"@[0]); assert("|"@[0] != "/"@[0]); assert("|"@[0] != ">"@[0]); assert("|"@[0] != "<"@[0]); assert("|"@.len() != "!="@.len()); assert("|"@.len() != "!=="@.len()); assert("|"@.len() != "<="@.len()); assert("|"@.len() != ">="@.len()); assert("|"@.len() != "<<"@.len()); assert("|"@.len() != ">>"@.len()); assert("|"@.len() != ">>>"@.len()); assert("|"@[0] != "%"@[0]); },
        BinaryOp::BitXor => { assert("^"@.len() != "==="@.len()); assert("^"@.len() != "=="@.len()); assert("^"@[0] != "+"@[0]); assert("^"@[0] != "-"@[0]); assert("^"@[0] != "*"@[0]); assert("^"@[0] != "/"@[0]); assert("^"@[0] != ">"@[0]); assert("^"@[0] != "<"@[0]); assert("^"@.len() != "!="@.len()); assert("^"@.len() != "!=="@.len()); assert("^"@.len() != "<="@.len()); assert("^"@.len() != ">="@.len()); assert("^"@.len() != "<<"@.len()); assert("^"@.len() != ">>"@.len()); assert("^"@.len() != ">>>"@.len()); assert("^"@[0] != "%"@[0]); assert("^"@[0] != "|"@[0]); },
        BinaryOp::BitAnd => { assert("&"@.len() != "==="@.len()); assert("&"@.len() != "=="@.len()); assert("&"@[0] != "+"@[0]); assert("&"@[0] != "-"@[0]); assert("&"@[0] != "*"@[0]); assert("&"@[0] != "/"@[0]); assert("&"@[0] != ">"@[0]); assert("&"@[0] != "<"@[0]); assert("&"@.len() != "!="@.len()); assert("&"@.len() != "!=="@.len()); assert("&"@.len() != "<="@.len()); assert("&"@.len() != ">="@.len()); assert("&"@.len() != "<<"@.len()); assert("&"@.len() != ">>"@.len()); assert("&"@.len() != ">>>"@.len()); assert("&"@[0] != "%"@[0]); assert("&"@[0] != "|"@[0]); assert("&"@[0] != "^"@[0]); },
        BinaryOp::LogicalOr => { assert("||"@.len() != "==="@.len()); assert("||"@[0] != "=="@[0]); assert("||"@.len() != "+"@.len()); assert("||"@.len() != "-"@.len()); assert("||"@.len() != "*"@.len()); assert("||"@.len() != "/"@.len()); assert("||"@.len() != ">"@.len()); assert("||"@.len() != "<"@.len()); assert("||"@[0] != "!="@[0]); assert("||"@.len() != "!=="@.len()); assert("||"@[0] != "<="@[0]); assert("||"@[0] != ">="@[0]); assert("||"@[0] != "<<"@[0]); assert("||"@[0] != ">>"@[0]); assert("||"@.len() != ">>>"@.len()); assert("||"@.len() != "%"@.len()); assert("||"@.len() != "|"@.len()); assert("||"@.len() != "^"@.len()); assert("||"@.len() != "&"@.len()); },
        BinaryOp::LogicalAnd => { assert("&&"@.len() != "==="@.len()); assert("&&"@[0] != "=="@[0]); assert("&&"@.len() != "+"@.len()); assert("&&"@.len() != "-"@.len()); assert("&&"@.len() != "*"@.len()); assert("&&"@.len() != "/"@.len()); assert("&&"@.len() != ">"@.len()); assert("&&"@.len() != "<"@.len()); assert("&&"@[0] != "!="@[0]); assert("&&"@.len() != "!=="@.len()); assert("&&"@[0] != "<="@[0]); assert("&&"@[0] != ">="@[0]); assert("&&"@[0] != "<<"@[0]); assert("&&"@[0] != ">>"@[0]); assert("&&"@.len() != ">>>"@.len()); assert("&&"@.len() != "%"@.len()); assert("&&"@.len() != "|"@.len()); assert("&&"@.len() != "^"@.len()); assert("&&"@.len() != "&"@.len()); assert("&&"@[0] != "||"@[0]); },
        BinaryOp::In => { assert("in"@.len() != "==="@.len()); assert("in"@[0] != "=="@[0]); assert("in"@.len() != "+"@.len()); assert("in"@.len() != "-"@.len()); assert("in"@.len() != "*"@.len()); assert("in"@.len() != "/"@.len()); assert("in"@.len() != ">"@.len()); assert("in"@.len() != "<"@.len()); assert("in"@[0] != "!="@[0]); assert("in"@.len() != "!=="@.len()); assert("in"@[0] != "<="@[0]); assert("in"@[0] != ">="@[0]); assert("in"@[0] != "<<"@[0]); assert("in"@[0] != ">>"@[0]); assert("in"@.len() != ">>>"@.len()); assert("in"@.len() != "%"@.len()); assert("in"@.len() != "|"@.len()); assert("in"@.len() != "^"@.len()); assert("in"@.len() != "&"@.len()); assert("in"@[0] != "||"@[0]); assert("in"@[0] != "&&"@[0]); },
        BinaryOp::InstanceOf => { assert("instanceof"@.len() != "==="@.len()); assert("instanceof"@.len() != "=="@.len()); assert("instanceof"@.len() != "+"@.len()); assert("instanceof"@.len() != "-"@.len()); assert("instanceof"@.len() != "*"@.len()); assert("instanceof"@.len() != "/"@.len()); assert("instanceof"@.len() != ">"@.len()); assert("instanceof"@.len() != "<"@.len()); assert("instanceof"@.len() != "!="@.len()); assert("instanceof"@.len() != "!=="@.len()); assert("instanceof"@.len() != "<="@.len()); assert("instanceof"@.len() != ">="@.len()); assert("instanceof"@.len() != "<<"@.len()); assert("instanceof"@.len() != ">>"@.len()); assert("instanceof"@.len() != ">>>"@.len()); assert("instanceof"@.len() != "%"@.len()); assert("instanceof"@.len() != "|"@.len()); assert("instanceof"@.len() != "^"@.len()); assert("instanceof"@.len() != "&"@.len()); assert("instanceof"@.len() != "||"@.len()); assert("instanceof"@.len() != "&&"@.len()); assert("instanceof"@.len() != "in"@.len()); },
        BinaryOp::Exp => { assert("**"@.len() != "==="@.len()); assert("**"@[0] != "=="@[0]); assert("**"@.len() != "+"@.len()); assert("**"@.len() != "-"@.len()); assert("**"@.len() != "*"@.len()); assert("**"@.len() != "/"@.len()); assert("**"@.len() != ">"@.len()); assert("**"@.len() != "<"@.len()); assert("**"@[0] != "!="@[0]); assert("**"@.len() != "!=="@.len()); assert("**"@[0] != "<="@[0]); assert("**"@[0] != ">="@[0]); assert("**"@[0] != "<<"@[0]); assert("**"@[0] != ">>"@[0]); assert("**"@.len() != ">>>"@.len()); assert("**"@.len() != "%"@.len()); assert("**"@.len() != "|"@.len()); assert("**"@.len() != "^"@.len()); assert("**"@.len() != "&"@.len()); assert("**"@[0] != "||"@[0]); assert("**"@[0] != "&&"@[0]); assert("**"@[0] != "in"@[0]); assert("**"@.len() != "instanceof"@.len()); },
        BinaryOp::NullishCoalescing => { assert("??"@.len() != "==="@.len()); assert("??"@[0] != "=="@[0]); assert("??"@.len() != "+"@.len()); assert("??"@.len() != "-"@.len()); assert("??"@.len() != "*"@.len()); assert("??"@.len() != "/"@.len()); assert("??"@.len() != ">"@.len()); assert("??"@.len() != "<"@.len()); assert("??"@[0] != "!="@[0]); assert("??"@.len() != "!=="@.len()); assert("??"@[0] != "<="@[0]); assert("??"@[0] != ">="@[0]); assert("??"@[0] != "<<"@[0]); assert("??"@[0] != ">>"@[0]); assert("??"@.len() != ">>>"@.len()); assert("??"@.len() != "%"@.len()); assert("??"@.len() != "|"@.len()); assert("??"@.len() != "^"@.len()); assert("??"@.len() != "&"@.len()); assert("??"@[0] != "||"@[0]); assert("??"@[0] != "&&"@[0]); assert("??"@[0] != "in"@[0]); assert("??"@.len() != "instanceof"@.len()); assert("??"@[0] != "**"@[0]); },
        }
    }
}

/// Reading a unary operator text back gives the operator written with it;
/// the four that macro results may use (`! ~ - +`) all survive the trip.
pub proof fn lemma_unary_operator_read_back(t: Seq<char>, op: UnaryOp)
    ensures
        unary_op_of(t) == Some(op) ==> t == unary_op_text(op),
        (op == UnaryOp::Bang || op == UnaryOp::Tilde || op == UnaryOp::Minus || op == UnaryOp::Plus)
            ==> unary_op_of(unary_op_text(op)) == Some(op),
{
    reveal_strlit("!");
    reveal_strlit("!=");
    reveal_strlit("!==");
    reveal_strlit("%");
    reveal_strlit("&");
    reveal_strlit("&&");
    reveal_strlit("*");
    reveal_strlit("**");
    reveal_strlit("+");
    reveal_strlit("-");
    reveal_strlit("/");
    reveal_strlit("<");
    reveal_strlit("<<");
    reveal_strlit("<=");
    reveal_strlit("==");
    reveal_strlit("===");
    reveal_strlit(">");
    reveal_strlit(">=");
    reveal_strlit(">>");
    reveal_strlit(">>>");
    reveal_strlit("??");
    reveal_strlit("^");
    reveal_strlit("delete");
    reveal_strlit("in");
    reveal_strlit("instanceof");
    reveal_strlit("typeof");
    reveal_strlit("void");
    reveal_strlit("|");
    reveal_strlit("||");
    reveal_strlit("~");
    if op == UnaryOp::Tilde { assert("~"@[0] != "!"@[0]); }
    if op == UnaryOp::Minus { assert("-"@[0] != "!"@[0]); assert("-"@[0] != "~"@[0]); }
    if op == UnaryOp::Plus { assert("+"@[0] != "!"@[0]); assert("+"@[0] != "~"@[0]); assert("+"@[0] != "-"@[0]); }
}

} // verus!
