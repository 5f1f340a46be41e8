//! Syntax templates: a parsed template fragment whose placeholders
//! `__MACRO_INTERP_<i>__` are replaced by the syntax of the interpolated values
//! (a placeholder that a declaration binds, by the name of an interpolated identifier).
use vstd::prelude::*;
use crate::ast::{
    Kind, Node, Payload, SpecNode, SpecPayload, snode, sleaf, dummy_span, dummy, nodes_view,
    view_nodes, view_node, lemma_view_nodes, make, one, push_node, copy_payload,
};
use crate::json::{JsonValue, SpecJson, jsons_view, lemma_view_jsons, view_json, jget_str, get_str};
use crate::marshal::{
    Conv, FromJson, from_json, node_from_json, conv_nodes, name_of,
    arg_node, to_json, ToJson, node_to_json, typed1,
};
use crate::text::{
    has_prefix, replace_all, parse_usize_spec, starts_with, replace_text, parse_usize, owned, concat, occurs_at,
    decimal, is_digit, all_digits, lemma_decimal_digits, lemma_parse_decimal,
};

verus! {

/// The index a placeholder name stands for: `__MACRO_INTERP_` in front, and
/// what is left once every `__MACRO_INTERP_` and every `__` is removed read as a number.
pub open spec fn interp_index(name: Seq<char>) -> Option<usize> {
    if has_prefix(name, "__MACRO_INTERP_"@) {
        parse_usize_spec(replace_all(replace_all(name, "__MACRO_INTERP_"@, Seq::empty()), "__"@, Seq::empty()))
    } else {
        None
    }
}

/// The interpolated value a node stands for, when it is a placeholder identifier.
pub open spec fn interp_value(n: SpecNode, values: Seq<SpecJson>) -> Option<SpecJson> {
    if n.kind == Kind::EIdent {
        match interp_index(name_of(n)) {
            Some(i) => if i < values.len() { Some(values[i as int]) } else { None },
            None => None,
        }
    } else {
        None
    }
}

/// The interpolated value a binding stands for, when it is a placeholder
/// binding identifier.
pub open spec fn binding_interp_value(n: SpecNode, values: Seq<SpecJson>) -> Option<SpecJson> {
    if n.kind == Kind::PIdent {
        match interp_index(name_of(n)) {
            Some(i) => if i < values.len() { Some(values[i as int]) } else { None },
            None => None,
        }
    } else {
        None
    }
}

/// The name of an `Identifier` value.
pub open spec fn identifier_name(v: SpecJson) -> Option<Seq<char>> {
    if jget_str(v, "type"@) == Some("Identifier"@) {
        jget_str(v, "name"@)
    } else {
        None
    }
}

/// The placeholder value a statement stands for, when it is a placeholder expression statement.
pub open spec fn stmt_interp_value(n: SpecNode, values: Seq<SpecJson>) -> Option<SpecJson> {
    if n.kind == Kind::SExpr && n.children.len() > 0 {
        interp_value(n.children[0], values)
    } else {
        None
    }
}

/// The placeholder value an argument stands for.
pub open spec fn arg_interp_value(n: SpecNode, values: Seq<SpecJson>) -> Option<SpecJson> {
    if n.kind == Kind::Arg && n.children.len() > 0 {
        interp_value(n.children[0], values)
    } else {
        None
    }
}

/// The arguments an array value stands for: each element must be an expression.
pub open spec fn exprs_of(a: Seq<SpecJson>) -> Conv<Seq<SpecNode>>
    decreases a.len(),
{
    if a.len() == 0 {
        Conv::Done(Seq::empty())
    } else {
        match exprs_of(a.drop_last()) {
            Conv::Done(xs) => match from_json(a.last(), FromJson::Expr, dummy_span()) {
                Conv::Done(e) => Conv::Done(xs.push(arg_node(e))),
                Conv::Fail => Conv::Fail,
                Conv::Crash => Conv::Crash,
            },
            other => other,
        }
    }
}

/// The statements an array value stands for: each element must be a statement.
pub open spec fn stmts_of(a: Seq<SpecJson>) -> Conv<Seq<SpecNode>>
    decreases a.len(),
{
    if a.len() == 0 {
        Conv::Done(Seq::empty())
    } else {
        match stmts_of(a.drop_last()) {
            Conv::Done(xs) => match from_json(a.last(), FromJson::Stmt, dummy_span()) {
                Conv::Done(st) => Conv::Done(xs.push(st)),
                Conv::Fail => Conv::Fail,
                Conv::Crash => Conv::Crash,
            },
            other => other,
        }
    }
}

/// A node with its placeholders replaced: `Fail` when a value interpolated
/// somewhere is no syntax of the shape its place asks for.
pub open spec fn resolve(n: SpecNode, values: Seq<SpecJson>) -> Conv<SpecNode>
    decreases n, 1nat,
{
    if interp_value(n, values) is Some {
        from_json(interp_value(n, values)->Some_0, FromJson::Expr, dummy_span())
    } else if binding_interp_value(n, values) is Some {
        match identifier_name(binding_interp_value(n, values)->Some_0) {
            Some(nm) => Conv::Done(sleaf(Kind::PIdent, n.span, SpecPayload::Name(nm))),
            None => Conv::Fail,
        }
    } else {
        let kids = if n.kind == Kind::Module || n.kind == Kind::SBlock || n.kind == Kind::StmtList {
            resolve_stmts(n.children, values)
        } else if n.kind == Kind::Args {
            resolve_args(n.children, values)
        } else {
            resolve_each(n.children, values)
        };
        match kids {
            Conv::Done(cs) => Conv::Done(snode(n.kind, n.span, n.payload, cs)),
            Conv::Fail => Conv::Fail,
            Conv::Crash => Conv::Crash,
        }
    }
}

/// Each node of a list with its placeholders replaced.
pub open spec fn resolve_each(s: Seq<SpecNode>, values: Seq<SpecJson>) -> Conv<Seq<SpecNode>>
    decreases s,
{
    if s.len() == 0 {
        Conv::Done(Seq::empty())
    } else {
        match resolve_each(s.drop_last(), values) {
            Conv::Done(xs) => match resolve(s.last(), values) {
                Conv::Done(x) => Conv::Done(xs.push(x)),
                Conv::Fail => Conv::Fail,
                Conv::Crash => Conv::Crash,
            },
            other => other,
        }
    }
}

/// What one statement of a statement list becomes: a placeholder statement is
/// replaced by the statement its value stands for (an expression value as an
/// expression statement), or by the statements of an array value.
pub open spec fn resolve_stmt(n: SpecNode, values: Seq<SpecJson>) -> Conv<Seq<SpecNode>>
    decreases n, 2nat,
{
    match stmt_interp_value(n, values) {
        Some(SpecJson::Array(a)) => stmts_of(a),
        Some(v) => match from_json(v, FromJson::Stmt, dummy_span()) {
            Conv::Done(st) => Conv::Done(seq![st]),
            Conv::Crash => Conv::Crash,
            Conv::Fail => match resolve(n, values) {
                Conv::Done(x) => Conv::Done(seq![x]),
                Conv::Fail => Conv::Fail,
                Conv::Crash => Conv::Crash,
            },
        },
        None => match resolve(n, values) {
            Conv::Done(x) => Conv::Done(seq![x]),
            Conv::Fail => Conv::Fail,
            Conv::Crash => Conv::Crash,
        },
    }
}

pub open spec fn resolve_stmts(s: Seq<SpecNode>, values: Seq<SpecJson>) -> Conv<Seq<SpecNode>>
    decreases s,
{
    if s.len() == 0 {
        Conv::Done(Seq::empty())
    } else {
        match resolve_stmts(s.drop_last(), values) {
            Conv::Done(xs) => match resolve_stmt(s.last(), values) {
                Conv::Done(ys) => Conv::Done(xs + ys),
                Conv::Fail => Conv::Fail,
                Conv::Crash => Conv::Crash,
            },
            other => other,
        }
    }
}

/// What one argument becomes: a placeholder argument is replaced by the
/// expression of its value, or by those of an array value.
pub open spec fn resolve_arg(n: SpecNode, values: Seq<SpecJson>) -> Conv<Seq<SpecNode>>
    decreases n, 2nat,
{
    match arg_interp_value(n, values) {
        Some(SpecJson::Array(a)) => exprs_of(a),
        Some(v) => match from_json(v, FromJson::Expr, dummy_span()) {
            Conv::Done(e) => Conv::Done(seq![arg_node(e)]),
            Conv::Crash => Conv::Crash,
            Conv::Fail => Conv::Fail,
        },
        None => match resolve(n, values) {
            Conv::Done(x) => Conv::Done(seq![x]),
            Conv::Fail => Conv::Fail,
            Conv::Crash => Conv::Crash,
        },
    }
}

pub open spec fn resolve_args(s: Seq<SpecNode>, values: Seq<SpecJson>) -> Conv<Seq<SpecNode>>
    decreases s,
{
    if s.len() == 0 {
        Conv::Done(Seq::empty())
    } else {
        match resolve_args(s.drop_last(), values) {
            Conv::Done(xs) => match resolve_arg(s.last(), values) {
                Conv::Done(ys) => Conv::Done(xs + ys),
                Conv::Fail => Conv::Fail,
                Conv::Crash => Conv::Crash,
            },
            other => other,
        }
    }
}

/// The text a template is parsed from: an expression template in parentheses.
pub open spec fn template_text(kind: Seq<char>, code: Seq<char>) -> Seq<char> {
    if kind == "expression"@ { "("@ + code + ")"@ } else { code }
}

/// Whether a module item is a statement.
pub open spec fn is_statement_item(n: SpecNode) -> bool {
    n.kind != Kind::Import && n.kind != Kind::ExportDecl && n.kind != Kind::ModuleDecl
}

/// The statement items of a module, rendered as statements.
pub open spec fn statement_items_json(s: Seq<SpecNode>) -> Seq<SpecJson>
    decreases s.len(),
{
    if s.len() == 0 {
        Seq::empty()
    } else {
        statement_items_json(s.drop_last()) + (if is_statement_item(s.last()) {
            seq![to_json(s.last(), ToJson::Stmt)]
        } else {
            Seq::empty()
        })
    }
}

/// The JSON a template of the given kind yields from the resolved module:
/// its first expression, its first statement, or all its statements as a block.
pub open spec fn template_json(kind: Seq<char>, m: SpecNode) -> Option<SpecJson> {
    if kind == "expression"@ {
        if m.children.len() > 0 && m.children[0].kind == Kind::SExpr && m.children[0].children.len() > 0 {
            Some(to_json(m.children[0].children[0], ToJson::Expr))
        } else {
            None
        }
    } else if kind == "statement"@ {
        if m.children.len() > 0 && is_statement_item(m.children[0]) {
            Some(to_json(m.children[0], ToJson::Stmt))
        } else {
            None
        }
    } else if kind == "program"@ {
        Some(SpecJson::Object(seq![
            ("type"@, SpecJson::Str("BlockStatement"@)),
            ("body"@, SpecJson::Array(statement_items_json(m.children))),
        ]))
    } else {
        None
    }
}

/// Whether a node holds a placeholder name at any depth: one that stands where
/// no value can be put (a property key or name), or that names no value.
pub open spec fn holds_placeholder(n: SpecNode) -> bool
    decreases n,
{
    (n.payload is Name && interp_index(n.payload->Name_0) is Some) || any_placeholder(n.children)
}

pub open spec fn any_placeholder(s: Seq<SpecNode>) -> bool
    decreases s,
{
    s.len() > 0 && (any_placeholder(s.drop_last()) || holds_placeholder(s.last()))
}

/// What a template yields, given its parse (`None` when it did not parse):
/// `Fail` when it did not parse, interpolates a value that is no syntax of the
/// shape its place asks for, leaves a placeholder that it could not replace
/// (one in a property key or name, or one past the values), or yields nothing
/// of its kind.
pub open spec fn resolve_template_spec(kind: Seq<char>, parsed: Option<SpecNode>, values: Seq<SpecJson>) -> Conv<SpecJson> {
    match parsed {
        None => Conv::Fail,
        Some(module) => match resolve(module, values) {
            Conv::Done(m) => if holds_placeholder(m) {
                Conv::Fail
            } else {
                match template_json(kind, m) {
                    Some(j) => Conv::Done(j),
                    None => Conv::Fail,
                }
            },
            Conv::Fail => Conv::Fail,
            Conv::Crash => Conv::Crash,
        },
    }
}

// ---------------------------------------------------------------------------
// Executable resolution

/// The index a placeholder name stands for.
pub fn interp_index_of(name: &String) -> (r: Option<usize>)
    ensures
        r == interp_index(name@),
{
    if !starts_with(name, "__MACRO_INTERP_") {
        return None;
    }
    proof {
        reveal_strlit("__MACRO_INTERP_");
        reveal_strlit("__");
        reveal_strlit("");
    }
    let a = replace_text(name, "__MACRO_INTERP_", "");
    let b = replace_text(&a, "__", "");
    assert(""@ =~= Seq::<char>::empty());
    parse_usize(&b)
}

pub open spec fn opt_value(r: Option<&JsonValue>) -> Option<SpecJson> {
    match r {
        Some(x) => Some(x@),
        None => None,
    }
}

fn binding_value_of<'a>(n: &Node, values: &'a Vec<JsonValue>) -> (r: Option<&'a JsonValue>)
    ensures
        opt_value(r) == binding_interp_value(n@, jsons_view(*values)),
{
    proof {
        lemma_view_jsons(values@);
    }
    if n.kind != Kind::PIdent {
        return None;
    }
    let name = match &n.payload {
        Payload::Name(s) => s.clone(),
        _ => String::new(),
    };
    assert(name@ == name_of(n@));
    match interp_index_of(&name) {
        Some(i) => if i < values.len() { Some(&values[i]) } else { None },
        None => None,
    }
}

fn identifier_name_of(v: &JsonValue) -> (r: Option<String>)
    ensures
        match r {
            Some(nm) => identifier_name(v@) == Some(nm@),
            None => identifier_name(v@) is None,
        },
{
    let is_ident = match get_str(v, "type") {
        Some(t) => *t == owned("Identifier"),
        None => false,
    };
    if is_ident {
        match get_str(v, "name") {
            Some(nm) => Some(nm.clone()),
            None => None,
        }
    } else {
        None
    }
}

fn interp_value_of<'a>(n: &Node, values: &'a Vec<JsonValue>) -> (r: Option<&'a JsonValue>)
    ensures
        opt_value(r) == interp_value(n@, jsons_view(*values)),
{
    proof {
        lemma_view_jsons(values@);
    }
    if n.kind != Kind::EIdent {
        return None;
    }
    let name = match &n.payload {
        Payload::Name(s) => s,
        _ => {
            assert(name_of(n@) =~= Seq::<char>::empty());
            return match interp_index_of(&String::new()) {
                Some(i) => if i < values.len() { Some(&values[i]) } else { None },
                None => None,
            };
        },
    };
    match interp_index_of(name) {
        Some(i) => if i < values.len() { Some(&values[i]) } else { None },
        None => None,
    }
}

fn exprs_of_values(a: &Vec<JsonValue>) -> (r: Conv<Vec<Node>>)
    ensures
        conv_nodes(r) == exprs_of(jsons_view(*a)),
{
    let ghost sa = jsons_view(*a);
    proof {
        lemma_view_jsons(a@);
    }
    let mut out: Vec<Node> = Vec::new();
    let mut i: usize = 0;
    while i < a.len()
        invariant
            i <= a.len(),
            sa == jsons_view(*a),
            sa.len() == a.len(),
            forall|j: int| 0 <= j < a.len() ==> #[trigger] sa[j] == view_json(a@[j]),
            exprs_of(sa.take(i as int)) == Conv::Done(nodes_view(out)),
        decreases a.len() - i,
    {
        assert(sa.take(i + 1).drop_last() =~= sa.take(i as int));
        match node_from_json(&a[i], FromJson::Expr, dummy()) {
            Conv::Done(e) => {
                push_node(&mut out, make(Kind::Arg, dummy(), Payload::Empty, one(e)));
            },
            Conv::Fail => {
                proof {
                    lemma_exprs_of_stops(sa, i as int + 1);
                }
                return Conv::Fail;
            },
            Conv::Crash => {
                proof {
                    lemma_exprs_of_stops(sa, i as int + 1);
                }
                return Conv::Crash;
            },
        }
        i = i + 1;
    }
    assert(sa.take(a.len() as int) =~= sa);
    Conv::Done(out)
}

fn stmts_of_values(a: &Vec<JsonValue>) -> (r: Conv<Vec<Node>>)
    ensures
        conv_nodes(r) == stmts_of(jsons_view(*a)),
{
    let ghost sa = jsons_view(*a);
    proof {
        lemma_view_jsons(a@);
    }
    let mut out: Vec<Node> = Vec::new();
    let mut i: usize = 0;
    while i < a.len()
        invariant
            i <= a.len(),
            sa == jsons_view(*a),
            sa.len() == a.len(),
            forall|j: int| 0 <= j < a.len() ==> #[trigger] sa[j] == view_json(a@[j]),
            stmts_of(sa.take(i as int)) == Conv::Done(nodes_view(out)),
        decreases a.len() - i,
    {
        assert(sa.take(i + 1).drop_last() =~= sa.take(i as int));
        match node_from_json(&a[i], FromJson::Stmt, dummy()) {
            Conv::Done(st) => {
                push_node(&mut out, st);
            },
            Conv::Fail => {
                proof {
                    lemma_stmts_of_stops(sa, i as int + 1);
                }
                return Conv::Fail;
            },
            Conv::Crash => {
                proof {
                    lemma_stmts_of_stops(sa, i as int + 1);
                }
                return Conv::Crash;
            },
        }
        i = i + 1;
    }
    assert(sa.take(a.len() as int) =~= sa);
    Conv::Done(out)
}

proof fn lemma_exprs_of_stops(s: Seq<SpecJson>, k: int)
    requires
        0 <= k <= s.len(),
        !(exprs_of(s.take(k)) is Done),
    ensures
        exprs_of(s) == exprs_of(s.take(k)),
    decreases s.len() - k,
{
    if k < s.len() {
        assert(s.take(k + 1).drop_last() =~= s.take(k));
        lemma_exprs_of_stops(s, k + 1);
    } else {
        assert(s.take(k) =~= s);
    }
}

proof fn lemma_stmts_of_stops(s: Seq<SpecJson>, k: int)
    requires
        0 <= k <= s.len(),
        !(stmts_of(s.take(k)) is Done),
    ensures
        stmts_of(s) == stmts_of(s.take(k)),
    decreases s.len() - k,
{
    if k < s.len() {
        assert(s.take(k + 1).drop_last() =~= s.take(k));
        lemma_stmts_of_stops(s, k + 1);
    } else {
        assert(s.take(k) =~= s);
    }
}

proof fn lemma_resolve_each_stops(s: Seq<SpecNode>, values: Seq<SpecJson>, k: int)
    requires
        0 <= k <= s.len(),
        !(resolve_each(s.take(k), values) is Done),
    ensures
        resolve_each(s, values) == resolve_each(s.take(k), values),
    decreases s.len() - k,
{
    if k < s.len() {
        assert(s.take(k + 1).drop_last() =~= s.take(k));
        lemma_resolve_each_stops(s, values, k + 1);
    } else {
        assert(s.take(k) =~= s);
    }
}

proof fn lemma_resolve_stmts_stops(s: Seq<SpecNode>, values: Seq<SpecJson>, k: int)
    requires
        0 <= k <= s.len(),
        !(resolve_stmts(s.take(k), values) is Done),
    ensures
        resolve_stmts(s, values) == resolve_stmts(s.take(k), values),
    decreases s.len() - k,
{
    if k < s.len() {
        assert(s.take(k + 1).drop_last() =~= s.take(k));
        lemma_resolve_stmts_stops(s, values, k + 1);
    } else {
        assert(s.take(k) =~= s);
    }
}

proof fn lemma_resolve_args_stops(s: Seq<SpecNode>, values: Seq<SpecJson>, k: int)
    requires
        0 <= k <= s.len(),
        !(resolve_args(s.take(k), values) is Done),
    ensures
        resolve_args(s, values) == resolve_args(s.take(k), values),
    decreases s.len() - k,
{
    if k < s.len() {
        assert(s.take(k + 1).drop_last() =~= s.take(k));
        lemma_resolve_args_stops(s, values, k + 1);
    } else {
        assert(s.take(k) =~= s);
    }
}

/// A node with its placeholders replaced.
pub fn resolve_node(n: &Node, values: &Vec<JsonValue>) -> (r: Conv<Node>)
    ensures
        r@ == resolve(n@, jsons_view(*values)),
    decreases n, 1nat,
{
    match interp_value_of(n, values) {
        Some(v) => {
            return node_from_json(v, FromJson::Expr, dummy());
        },
        None => {},
    }
    if let Some(v) = binding_value_of(n, values) {
        return match identifier_name_of(v) {
            Some(nm) => {
                let b = Node { kind: Kind::PIdent, span: n.span, payload: Payload::Name(nm), children: Vec::new() };
                assert(b@.children =~= Seq::<SpecNode>::empty());
                Conv::Done(b)
            },
            None => Conv::Fail,
        };
    }
    let kids = if n.kind == Kind::Module || n.kind == Kind::SBlock || n.kind == Kind::StmtList {
        resolve_stmt_vec(&n.children, values)
    } else if n.kind == Kind::Args {
        resolve_arg_vec(&n.children, values)
    } else {
        resolve_each_vec(&n.children, values)
    };
    match kids {
        Conv::Done(cs) => Conv::Done(make(n.kind, n.span, copy_payload(&n.payload), cs)),
        Conv::Fail => Conv::Fail,
        Conv::Crash => Conv::Crash,
    }
}

fn resolve_each_vec(v: &Vec<Node>, values: &Vec<JsonValue>) -> (r: Conv<Vec<Node>>)
    ensures
        conv_nodes(r) == resolve_each(nodes_view(*v), jsons_view(*values)),
    decreases v,
{
    let ghost sv = nodes_view(*v);
    let ghost vals = jsons_view(*values);
    proof {
        lemma_view_nodes(v@);
    }
    let mut out: Vec<Node> = Vec::new();
    let mut i: usize = 0;
    while i < v.len()
        invariant
            i <= v.len(),
            sv == nodes_view(*v),
            vals == jsons_view(*values),
            sv.len() == v.len(),
            forall|j: int| 0 <= j < v.len() ==> #[trigger] sv[j] == view_node(v@[j]),
            resolve_each(sv.take(i as int), vals) == Conv::Done(nodes_view(out)),
        decreases v.len() - i,
    {
        assert(sv.take(i + 1).drop_last() =~= sv.take(i as int));
        match resolve_node(&v[i], values) {
            Conv::Done(x) => push_node(&mut out, x),
            Conv::Fail => {
                proof {
                    lemma_resolve_each_stops(sv, vals, i as int + 1);
                }
                return Conv::Fail;
            },
            Conv::Crash => {
                proof {
                    lemma_resolve_each_stops(sv, vals, i as int + 1);
                }
                return Conv::Crash;
            },
        }
        i = i + 1;
    }
    assert(sv.take(v.len() as int) =~= sv);
    Conv::Done(out)
}

pub(crate) fn append_nodes(out: &mut Vec<Node>, more: Vec<Node>)
    ensures
        nodes_view(*final(out)) == nodes_view(*old(out)) + nodes_view(more),
{
    let ghost base = nodes_view(*out);
    let ghost mv = nodes_view(more);
    proof {
        lemma_view_nodes(more@);
    }
    let mut more = more;
    let mut rest: Vec<Node> = Vec::new();
    // take the elements off the back, then put them on in order
    let ghost orig = more@;
    while more.len() > 0
        invariant
            orig.len() == more.len() + rest.len(),
            forall|j: int| 0 <= j < more.len() ==> #[trigger] more@[j] == orig[j],
            forall|j: int| 0 <= j < rest.len() ==> #[trigger] rest@[j] == orig[orig.len() - 1 - j],
        decreases more.len(),
    {
        let x = more.pop().unwrap();
        rest.push(x);
    }
    let mut k: usize = rest.len();
    proof {
        lemma_view_nodes(orig);
    }
    while k > 0
        invariant
            k <= rest.len(),
            rest.len() == orig.len(),
            forall|j: int| 0 <= j < rest.len() ==> #[trigger] rest@[j] == orig[orig.len() - 1 - j],
            view_nodes(orig).len() == orig.len(),
            forall|j: int| 0 <= j < orig.len() ==> #[trigger] view_nodes(orig)[j] == view_node(orig[j]),
            mv == view_nodes(orig),
            nodes_view(*out) == base + mv.take(orig.len() - k),
        decreases k,
    {
        k = k - 1;
        let x = crate::ast::copy_node(&rest[k]);
        let ghost idx = orig.len() - 1 - k;
        assert(rest@[k as int] == orig[idx]);
        push_node(out, x);
        assert(mv.take(idx + 1) =~= mv.take(idx).push(mv[idx]));
    }
    assert(mv.take(orig.len() as int) =~= mv);
}

fn resolve_stmt_item(n: &Node, values: &Vec<JsonValue>) -> (r: Conv<Vec<Node>>)
    ensures
        conv_nodes(r) == resolve_stmt(n@, jsons_view(*values)),
    decreases n, 2nat,
{
    proof {
        lemma_view_nodes(n.children@);
    }
    let iv = if n.kind == Kind::SExpr && n.children.len() > 0 {
        interp_value_of(&n.children[0], values)
    } else {
        None
    };
    match iv {
        Some(JsonValue::Array(a)) => stmts_of_values(a),
        Some(v) => match node_from_json(v, FromJson::Stmt, dummy()) {
            Conv::Done(st) => Conv::Done(one(st)),
            Conv::Crash => Conv::Crash,
            Conv::Fail => match resolve_node(n, values) {
                Conv::Done(x) => Conv::Done(one(x)),
                Conv::Fail => Conv::Fail,
                Conv::Crash => Conv::Crash,
            },
        },
        None => match resolve_node(n, values) {
            Conv::Done(x) => Conv::Done(one(x)),
            Conv::Fail => Conv::Fail,
            Conv::Crash => Conv::Crash,
        },
    }
}

fn resolve_stmt_vec(v: &Vec<Node>, values: &Vec<JsonValue>) -> (r: Conv<Vec<Node>>)
    ensures
        conv_nodes(r) == resolve_stmts(nodes_view(*v), jsons_view(*values)),
    decreases v,
{
    let ghost sv = nodes_view(*v);
    let ghost vals = jsons_view(*values);
    proof {
        lemma_view_nodes(v@);
    }
    let mut out: Vec<Node> = Vec::new();
    let mut i: usize = 0;
    while i < v.len()
        invariant
            i <= v.len(),
            sv == nodes_view(*v),
            vals == jsons_view(*values),
            sv.len() == v.len(),
            forall|j: int| 0 <= j < v.len() ==> #[trigger] sv[j] == view_node(v@[j]),
            resolve_stmts(sv.take(i as int), vals) == Conv::Done(nodes_view(out)),
        decreases v.len() - i,
    {
        assert(sv.take(i + 1).drop_last() =~= sv.take(i as int));
        match resolve_stmt_item(&v[i], values) {
            Conv::Done(xs) => append_nodes(&mut out, xs),
            Conv::Fail => {
                proof {
                    lemma_resolve_stmts_stops(sv, vals, i as int + 1);
                }
                return Conv::Fail;
            },
            Conv::Crash => {
                proof {
                    lemma_resolve_stmts_stops(sv, vals, i as int + 1);
                }
                return Conv::Crash;
            },
        }
        i = i + 1;
    }
    assert(sv.take(v.len() as int) =~= sv);
    Conv::Done(out)
}

fn resolve_arg_item(n: &Node, values: &Vec<JsonValue>) -> (r: Conv<Vec<Node>>)
    ensures
        conv_nodes(r) == resolve_arg(n@, jsons_view(*values)),
    decreases n, 2nat,
{
    proof {
        lemma_view_nodes(n.children@);
    }
    let iv = if n.kind == Kind::Arg && n.children.len() > 0 {
        interp_value_of(&n.children[0], values)
    } else {
        None
    };
    match iv {
        Some(JsonValue::Array(a)) => exprs_of_values(a),
        Some(v) => match node_from_json(v, FromJson::Expr, dummy()) {
            Conv::Done(e) => Conv::Done(one(make(Kind::Arg, dummy(), Payload::Empty, one(e)))),
            Conv::Crash => Conv::Crash,
            Conv::Fail => Conv::Fail,
        },
        None => match resolve_node(n, values) {
            Conv::Done(x) => Conv::Done(one(x)),
            Conv::Fail => Conv::Fail,
            Conv::Crash => Conv::Crash,
        },
    }
}

fn resolve_arg_vec(v: &Vec<Node>, values: &Vec<JsonValue>) -> (r: Conv<Vec<Node>>)
    ensures
        conv_nodes(r) == resolve_args(nodes_view(*v), jsons_view(*values)),
    decreases v,
{
    let ghost sv = nodes_view(*v);
    let ghost vals = jsons_view(*values);
    proof {
        lemma_view_nodes(v@);
    }
    let mut out: Vec<Node> = Vec::new();
    let mut i: usize = 0;
    while i < v.len()
        invariant
            i <= v.len(),
            sv == nodes_view(*v),
            vals == jsons_view(*values),
            sv.len() == v.len(),
            forall|j: int| 0 <= j < v.len() ==> #[trigger] sv[j] == view_node(v@[j]),
            resolve_args(sv.take(i as int), vals) == Conv::Done(nodes_view(out)),
        decreases v.len() - i,
    {
        assert(sv.take(i + 1).drop_last() =~= sv.take(i as int));
        match resolve_arg_item(&v[i], values) {
            Conv::Done(xs) => append_nodes(&mut out, xs),
            Conv::Fail => {
                proof {
                    lemma_resolve_args_stops(sv, vals, i as int + 1);
                }
                return Conv::Fail;
            },
            Conv::Crash => {
                proof {
                    lemma_resolve_args_stops(sv, vals, i as int + 1);
                }
                return Conv::Crash;
            },
        }
        i = i + 1;
    }
    assert(sv.take(v.len() as int) =~= sv);
    Conv::Done(out)
}

/// The text a template is parsed from: an expression template in parentheses.
pub fn template_source(kind: &String, code: &String) -> (s: String)
    ensures
        s@ == template_text(kind@, code@),
{
    if *kind == owned("expression") {
        concat(concat("(", code.as_str()).as_str(), ")")
    } else {
        code.clone()
    }
}

fn is_statement_item_node(n: &Node) -> (b: bool)
    ensures
        b == is_statement_item(n@),
{
    n.kind != Kind::Import && n.kind != Kind::ExportDecl && n.kind != Kind::ModuleDecl
}

fn template_json_of(kind: &String, m: &Node) -> (r: Option<JsonValue>)
    ensures
        match r {
            Some(j) => template_json(kind@, m@) == Some(j@),
            None => template_json(kind@, m@) is None,
        },
{
    proof {
        lemma_view_nodes(m.children@);
    }
    if *kind == owned("expression") {
        if m.children.len() > 0 && m.children[0].kind == Kind::SExpr && m.children[0].children.len() > 0 {
            proof {
                lemma_view_nodes(m.children[0].children@);
            }
            Some(node_to_json(&m.children[0].children[0], ToJson::Expr))
        } else {
            None
        }
    } else if *kind == owned("statement") {
        if m.children.len() > 0 && is_statement_item_node(&m.children[0]) {
            Some(node_to_json(&m.children[0], ToJson::Stmt))
        } else {
            None
        }
    } else if *kind == owned("program") {
        let ghost sm = nodes_view(m.children);
        let mut body: Vec<JsonValue> = Vec::new();
        let mut i: usize = 0;
        while i < m.children.len()
            invariant
                i <= m.children.len(),
                sm == nodes_view(m.children),
                sm.len() == m.children.len(),
                forall|j: int| 0 <= j < m.children.len() ==> #[trigger] sm[j] == view_node(m.children@[j]),
                jsons_view(body) == statement_items_json(sm.take(i as int)),
            decreases m.children.len() - i,
        {
            assert(sm.take(i + 1).drop_last() =~= sm.take(i as int));
            if is_statement_item_node(&m.children[i]) {
                let x = node_to_json(&m.children[i], ToJson::Stmt);
                crate::json::push_json(&mut body, x);
                assert(jsons_view(body) =~= statement_items_json(sm.take(i as int)) + seq![to_json(sm[i as int], ToJson::Stmt)]);
            } else {
                assert(statement_items_json(sm.take(i + 1)) =~= statement_items_json(sm.take(i as int)));
            }
            i = i + 1;
        }
        assert(sm.take(m.children.len() as int) =~= sm);
        let j = typed1("BlockStatement", "body", JsonValue::Array(body));
        assert(seq![("type"@, SpecJson::Str("BlockStatement"@))] + seq![("body"@, SpecJson::Array(statement_items_json(sm)))]
            =~= seq![("type"@, SpecJson::Str("BlockStatement"@)), ("body"@, SpecJson::Array(statement_items_json(sm)))]);
        Some(j)
    } else {
        None
    }
}

/// `resolve_template`: what a template of the given kind yields once its
/// placeholders are replaced, given its parse (`None` when it did not parse):
/// `Done` with its JSON; `Fail` when it did not parse, yields nothing, or
/// interpolates a value that is no syntax of the shape its place asks for;
/// `Crash` when a value holds a malformed arrow parameter.
/// Whether a node holds a placeholder name (`holds_placeholder`).
fn holds_placeholder_node(n: &Node) -> (b: bool)
    ensures
        b == holds_placeholder(n@),
    decreases n,
{
    proof {
        lemma_view_nodes(n.children@);
    }
    let own = match &n.payload {
        Payload::Name(x) => interp_index_of(x).is_some(),
        _ => false,
    };
    if own {
        return true;
    }
    let mut i: usize = 0;
    let mut acc = false;
    while i < n.children.len()
        invariant
            i <= n.children.len(),
            view_nodes(n.children@).len() == n.children.len(),
            forall|j: int| 0 <= j < n.children.len() ==> #[trigger] view_nodes(n.children@)[j] == view_node(n.children@[j]),
            acc == any_placeholder(view_nodes(n.children@).take(i as int)),
        decreases n.children.len() - i,
    {
        let b = holds_placeholder_node(&n.children[i]);
        assert(view_nodes(n.children@).take(i + 1).drop_last() =~= view_nodes(n.children@).take(i as int));
        acc = acc || b;
        i = i + 1;
    }
    assert(view_nodes(n.children@).take(n.children.len() as int) =~= view_nodes(n.children@));
    acc
}

pub fn resolve_template(kind: &String, parsed: Option<&Node>, values: &Vec<JsonValue>) -> (r: Conv<JsonValue>)
    ensures
        r@ == resolve_template_spec(kind@, match parsed { Some(m) => Some(m@), None => None }, jsons_view(*values)),
{
    match parsed {
        None => Conv::Fail,
        Some(module) => match resolve_node(module, values) {
            Conv::Done(m) => if holds_placeholder_node(&m) {
                Conv::Fail
            } else {
                match template_json_of(kind, &m) {
                    Some(j) => Conv::Done(j),
                    None => Conv::Fail,
                }
            },
            Conv::Fail => Conv::Fail,
            Conv::Crash => Conv::Crash,
        },
    }
}

// ---------------------------------------------------------------------------
// Laws

proof fn lemma_resolve_plain(n: SpecNode)
    ensures
        resolve(n, Seq::empty()) == Conv::Done(n),
    decreases n, 1nat,
{
    let v = Seq::<SpecJson>::empty();
    assert(interp_value(n, v) is None);
    if n.kind == Kind::Module || n.kind == Kind::SBlock || n.kind == Kind::StmtList {
        lemma_resolve_stmts_plain(n.children);
    } else if n.kind == Kind::Args {
        lemma_resolve_args_plain(n.children);
    } else {
        lemma_resolve_each_plain(n.children);
    }
}

proof fn lemma_resolve_each_plain(s: Seq<SpecNode>)
    ensures
        resolve_each(s, Seq::empty()) == Conv::Done(s),
    decreases s, 0nat,
{
    if s.len() > 0 {
        lemma_resolve_each_plain(s.drop_last());
        lemma_resolve_plain(s.last());
        assert(s.drop_last().push(s.last()) =~= s);
    } else {
        assert(s =~= Seq::<SpecNode>::empty());
    }
}

proof fn lemma_resolve_stmts_plain(s: Seq<SpecNode>)
    ensures
        resolve_stmts(s, Seq::empty()) == Conv::Done(s),
    decreases s, 0nat,
{
    if s.len() > 0 {
        let v = Seq::<SpecJson>::empty();
        lemma_resolve_stmts_plain(s.drop_last());
        lemma_resolve_plain(s.last());
        assert(stmt_interp_value(s.last(), v) is None);
        assert(resolve_stmt(s.last(), v) == Conv::Done(seq![s.last()]));
        assert(s.drop_last() + seq![s.last()] =~= s);
    } else {
        assert(s =~= Seq::<SpecNode>::empty());
    }
}

proof fn lemma_resolve_args_plain(s: Seq<SpecNode>)
    ensures
        resolve_args(s, Seq::empty()) == Conv::Done(s),
    decreases s, 0nat,
{
    if s.len() > 0 {
        let v = Seq::<SpecJson>::empty();
        lemma_resolve_args_plain(s.drop_last());
        lemma_resolve_plain(s.last());
        assert(arg_interp_value(s.last(), v) is None);
        assert(resolve_arg(s.last(), v) == Conv::Done(seq![s.last()]));
        assert(s.drop_last() + seq![s.last()] =~= s);
    } else {
        assert(s =~= Seq::<SpecNode>::empty());
    }
}

/// A template that interpolates nothing stands for exactly the code written:
/// resolving its parse against no values changes nothing.
pub proof fn lemma_template_without_values(m: SpecNode)
    ensures
        resolve(m, Seq::empty()) == Conv::Done(m),
{
    lemma_resolve_plain(m);
}

/// An expression template yields the JSON of an expression: that of the
/// first statement's expression in the resolved parse.
pub proof fn lemma_expression_template_is_expression(parsed: SpecNode, values: Seq<SpecJson>)
    ensures
        resolve_template_spec("expression"@, Some(parsed), values) matches Conv::Done(j) ==>
            exists|e: SpecNode| j == to_json(e, ToJson::Expr),
{
    if let Conv::Done(m) = resolve(parsed, values) {
        if let Some(j) = template_json("expression"@, m) {
            assert(j == to_json(m.children[0].children[0], ToJson::Expr));
        }
    }
}

/// A statement template yields the JSON of a statement: that of the first
/// item of the resolved parse, which is a statement.
pub proof fn lemma_statement_template_is_statement(parsed: SpecNode, values: Seq<SpecJson>)
    ensures
        resolve_template_spec("statement"@, Some(parsed), values) matches Conv::Done(j) ==>
            exists|st: SpecNode| is_statement_item(st) && j == to_json(st, ToJson::Stmt),
{
    reveal_strlit("expression");
    reveal_strlit("statement");
    assert("statement"@ != "expression"@) by {
        assert("statement"@[0] != "expression"@[0]);
    }
    if let Conv::Done(m) = resolve(parsed, values) {
        if let Some(j) = template_json("statement"@, m) {
            assert(is_statement_item(m.children[0]) && j == to_json(m.children[0], ToJson::Stmt));
        }
    }
}

/// A program template yields a block statement of the statements of the
/// resolved parse.
pub proof fn lemma_program_template_is_block(parsed: SpecNode, values: Seq<SpecJson>)
    ensures
        resolve_template_spec("program"@, Some(parsed), values) matches Conv::Done(j) ==>
            exists|m: SpecNode| j == SpecJson::Object(seq![
                ("type"@, SpecJson::Str("BlockStatement"@)),
                ("body"@, SpecJson::Array(statement_items_json(m.children))),
            ]),
{
    reveal_strlit("expression");
    reveal_strlit("statement");
    reveal_strlit("program");
    assert("program"@ != "expression"@ && "program"@ != "statement"@) by {
        assert("program"@[0] != "expression"@[0] && "program"@[0] != "statement"@[0]);
    }
    if let Conv::Done(m) = resolve(parsed, values) {
        if let Some(j) = template_json("program"@, m) {
            assert(j == SpecJson::Object(seq![
                ("type"@, SpecJson::Str("BlockStatement"@)),
                ("body"@, SpecJson::Array(statement_items_json(m.children))),
            ]));
        }
    }
}

/// An array value interpolated where arguments stand is spliced element by
/// element: it yields one argument per element, in order, each the expression
/// that element stands for, exactly when every element stands for one.
pub proof fn lemma_array_arguments_spliced(a: Seq<SpecJson>)
    ensures
        exprs_of(a) matches Conv::Done(xs) ==> xs.len() == a.len() && forall|i: int| 0 <= i < a.len() ==>
            (from_json(#[trigger] a[i], FromJson::Expr, dummy_span()) matches Conv::Done(e) && xs[i] == arg_node(e)),
        (forall|i: int| 0 <= i < a.len() ==> (#[trigger] from_json(a[i], FromJson::Expr, dummy_span())) is Done)
            ==> exprs_of(a) is Done,
    decreases a.len(),
{
    if a.len() > 0 {
        lemma_array_arguments_spliced(a.drop_last());
        assert forall|i: int| 0 <= i < a.drop_last().len() implies #[trigger] a.drop_last()[i] == a[i] by {}
        if let Conv::Done(xs) = exprs_of(a) {
            let ys = exprs_of(a.drop_last())->Done_0;
            assert forall|i: int| 0 <= i < a.len() implies
                (from_json(#[trigger] a[i], FromJson::Expr, dummy_span()) matches Conv::Done(e) && xs[i] == arg_node(e)) by {
                if i < a.len() - 1 {
                    assert(a.drop_last()[i] == a[i]);
                    assert(xs[i] == ys[i]);
                }
            }
        }
        if forall|i: int| 0 <= i < a.len() ==> (#[trigger] from_json(a[i], FromJson::Expr, dummy_span())) is Done {
            assert forall|i: int| 0 <= i < a.drop_last().len() implies
                (#[trigger] from_json(a.drop_last()[i], FromJson::Expr, dummy_span())) is Done by {
                assert(a.drop_last()[i] == a[i]);
            }
            assert(from_json(a[a.len() - 1], FromJson::Expr, dummy_span()) is Done);
        }
    }
}

/// An array value interpolated where statements stand is spliced element by
/// element: it yields one statement per element, in order, each the statement
/// that element stands for, exactly when every element stands for one.
pub proof fn lemma_array_statements_spliced(a: Seq<SpecJson>)
    ensures
        stmts_of(a) matches Conv::Done(xs) ==> xs.len() == a.len() && forall|i: int| 0 <= i < a.len() ==>
            from_json(#[trigger] a[i], FromJson::Stmt, dummy_span()) == Conv::Done(xs[i]),
        (forall|i: int| 0 <= i < a.len() ==> (#[trigger] from_json(a[i], FromJson::Stmt, dummy_span())) is Done)
            ==> stmts_of(a) is Done,
    decreases a.len(),
{
    if a.len() > 0 {
        lemma_array_statements_spliced(a.drop_last());
        if let Conv::Done(xs) = stmts_of(a) {
            let ys = stmts_of(a.drop_last())->Done_0;
            assert forall|i: int| 0 <= i < a.len() implies
                from_json(#[trigger] a[i], FromJson::Stmt, dummy_span()) == Conv::Done(xs[i]) by {
                if i < a.len() - 1 {
                    assert(a.drop_last()[i] == a[i]);
                    assert(xs[i] == ys[i]);
                }
            }
        }
        if forall|i: int| 0 <= i < a.len() ==> (#[trigger] from_json(a[i], FromJson::Stmt, dummy_span())) is Done {
            assert forall|i: int| 0 <= i < a.drop_last().len() implies
                (#[trigger] from_json(a.drop_last()[i], FromJson::Stmt, dummy_span())) is Done by {
                assert(a.drop_last()[i] == a[i]);
            }
            assert(from_json(a[a.len() - 1], FromJson::Stmt, dummy_span()) is Done);
        }
    }
}

/// The name a template gives its `i`-th placeholder: `__MACRO_INTERP_<i>__`.
pub open spec fn placeholder_name(i: nat) -> Seq<char> {
    "__MACRO_INTERP_"@ + decimal(i) + "__"@
}

/// Replacing a pattern that does not occur changes nothing.
proof fn lemma_replace_absent(s: Seq<char>, pat: Seq<char>, rep: Seq<char>)
    requires
        forall|j: int| !occurs_at(s, pat, j),
    ensures
        replace_all(s, pat, rep) == s,
    decreases s.len(),
{
    if s.len() > 0 && pat.len() > 0 {
        let t = s.skip(1);
        assert forall|j: int| !occurs_at(t, pat, j) by {
            if occurs_at(t, pat, j) {
                assert(s.subrange(j + 1, j + 1 + pat.len()) =~= t.subrange(j, j + pat.len()));
                assert(occurs_at(s, pat, j + 1));
            }
        }
        lemma_replace_absent(t, pat, rep);
        assert(seq![s[0]] + t =~= s);
    }
}

/// Removing `__` from digits followed by `__` leaves the digits.
proof fn lemma_strip_trailing_underscores(d: Seq<char>)
    requires
        all_digits(d),
    ensures
        replace_all(d + "__"@, "__"@, Seq::empty()) == d,
    decreases d.len(),
{
    reveal_strlit("__");
    let s = d + "__"@;
    if d.len() == 0 {
        assert(s =~= "__"@);
        assert(s.subrange(0, 2) =~= "__"@);
        assert(occurs_at(s, "__"@, 0));
        assert(s.skip(2) =~= Seq::<char>::empty());
        assert(replace_all(s.skip(2), "__"@, Seq::empty()) == Seq::<char>::empty());
        assert(replace_all(s, "__"@, Seq::empty()) == Seq::<char>::empty() + replace_all(s.skip(2), "__"@, Seq::empty()));
        assert(Seq::<char>::empty() + Seq::<char>::empty() =~= Seq::<char>::empty());
    } else {
        assert(is_digit(d[0]));
        assert(s[0] == d[0]);
        assert(!occurs_at(s, "__"@, 0)) by {
            if occurs_at(s, "__"@, 0) {
                assert(s.subrange(0, 2)[0] == '_');
            }
        }
        let rest = d.skip(1);
        assert forall|k: int| 0 <= k < rest.len() implies is_digit(#[trigger] rest[k]) by {
            assert(rest[k] == d[k + 1]);
        }
        lemma_strip_trailing_underscores(rest);
        assert(s.skip(1) =~= rest + "__"@);
        assert(replace_all(s, "__"@, Seq::empty()) == seq![s[0]] + replace_all(s.skip(1), "__"@, Seq::empty()));
        assert(seq![d[0]] + rest =~= d);
    }
}

/// A placeholder's name stands for its own index: reading the name that a
/// template gives its `i`-th placeholder gives `i` back.
pub proof fn lemma_placeholder_index(i: usize)
    ensures
        interp_index(placeholder_name(i as nat)) == Some(i),
{
    reveal_strlit("__MACRO_INTERP_");
    reveal_strlit("__");
    let p = "__MACRO_INTERP_"@;
    let d = decimal(i as nat);
    let name = placeholder_name(i as nat);
    lemma_decimal_digits(i as nat);
    lemma_parse_decimal(i);
    assert(name.take(p.len() as int) =~= p);
    assert(name.subrange(0, p.len() as int) =~= p);
    let tail = d + "__"@;
    assert(name.skip(p.len() as int) =~= tail);
    // `M` does not occur in digits and underscores, so the prefix occurs no more.
    assert forall|j: int| !occurs_at(tail, p, j) by {
        if occurs_at(tail, p, j) {
            assert(tail.subrange(j, j + p.len())[2] == p[2]);
            assert(p[2] == 'M');
            assert(tail[j + 2] == 'M');
            if j + 2 < d.len() {
                assert(is_digit(d[j + 2]));
            } else {
                assert(tail[j + 2] == "__"@[j + 2 - d.len()]);
            }
        }
    }
    lemma_replace_absent(tail, p, Seq::empty());
    assert(replace_all(name, p, Seq::empty()) == Seq::<char>::empty() + replace_all(tail, p, Seq::empty()));
    assert(Seq::<char>::empty() + tail =~= tail);
    lemma_strip_trailing_underscores(d);
}

/// A placeholder expression is replaced by the syntax of its own value: the
/// `i`-th placeholder, for a value that is there, becomes the expression that
/// the `i`-th value stands for.
pub proof fn lemma_placeholder_replaced(n: SpecNode, values: Seq<SpecJson>, i: usize)
    requires
        n.kind == Kind::EIdent,
        n.payload == SpecPayload::Name(placeholder_name(i as nat)),
        i < values.len(),
    ensures
        resolve(n, values) == from_json(values[i as int], FromJson::Expr, dummy_span()),
{
    lemma_placeholder_index(i);
    assert(name_of(n) == placeholder_name(i as nat));
    assert(interp_value(n, values) == Some(values[i as int]));
}

/// A placeholder that a declaration binds takes the name of its own value:
/// the `i`-th placeholder binding, for a value that is an identifier, binds
/// that identifier's name.
pub proof fn lemma_placeholder_binding_named(n: SpecNode, values: Seq<SpecJson>, i: usize, x: Seq<char>)
    requires
        n.kind == Kind::PIdent,
        n.payload == SpecPayload::Name(placeholder_name(i as nat)),
        i < values.len(),
        identifier_name(values[i as int]) == Some(x),
    ensures
        resolve(n, values) == Conv::Done(sleaf(Kind::PIdent, n.span, SpecPayload::Name(x))),
{
    lemma_placeholder_index(i);
    assert(name_of(n) == placeholder_name(i as nat));
    assert(interp_value(n, values) is None);
    assert(binding_interp_value(n, values) == Some(values[i as int]));
}

} // verus!
