//! `recur`: checking that every `recur(...)` call may be lowered, and lowering
//! it to a loop that reassigns the parameters and continues.
use vstd::prelude::*;
use crate::ast::{
    Kind, Node, Payload, SpecNode, SpecPayload, Span, VarKind, snode, sleaf, dummy_span, dummy,
    nodes_view, view_nodes, view_node, lemma_view_nodes, make, leaf, one, two, push_node,
    copy_node, is_ident_named,
};
use crate::text::{decimal, decimal_text, concat, owned, same_text, lemma_decimal_digits};

verus! {

/// What a `recur` call breaks.
#[derive(Clone, Copy, Debug, PartialEq, Eq, Structural)]
pub enum RecurError {
    /// Outside every function.
    NotInFunction(Span),
    /// Not in tail position.
    NotInTailPosition(Span),
    /// A number of arguments other than the function's number of parameters.
    ArityMismatch { span: Span, expected: usize, got: usize },
    /// Inside a `finally` block.
    InsideFinally(Span),
    /// In a `try` or `catch` whose statement has a `finally` clause.
    AcrossFinally(Span),
    /// An arrow function whose expression body calls `recur` (spanned at the arrow).
    ArrowExpressionBody(Span),
}

/// Where the analysis stands: inside a function (and with how many parameters),
/// inside a `try`/`catch` that has a `finally`, inside a `finally` block; whether
/// the node's completion is the function's result (`tail`), whether it stands
/// directly as the expression of a `return` or an expression statement
/// (`direct`).
#[derive(Clone, Copy)]
pub struct RecurCtx {
    pub in_function: bool,
    pub params: usize,
    pub in_try_with_finally: bool,
    pub in_finally: bool,
    pub tail: bool,
    pub direct: bool,
}

/// The context of a node that is no statement the tail rules see through.
pub open spec fn opaque(c: RecurCtx) -> RecurCtx {
    RecurCtx { tail: false, direct: false, ..c }
}

/// The context at the start of a module.
pub open spec fn top_ctx() -> RecurCtx {
    RecurCtx {
        in_function: false,
        params: 0,
        in_try_with_finally: false,
        in_finally: false,
        tail: false,
        direct: false,
    }
}

/// The context of the body of a function with `params` parameters: a `finally`
/// around the function is none of its body's concern.
pub open spec fn fn_ctx(c: RecurCtx, params: usize) -> RecurCtx {
    RecurCtx {
        in_function: true,
        params,
        in_try_with_finally: false,
        in_finally: false,
        tail: true,
        direct: false,
    }
}

/// Whether a node is a function declaration or expression with its name,
/// parameters and body.
pub open spec fn is_fn_shape(n: SpecNode) -> bool {
    (n.kind == Kind::EFn || n.kind == Kind::SFnDecl) && n.children.len() == 3
}

/// Whether a node is an arrow function with its parameters and body.
pub open spec fn is_arrow_shape(n: SpecNode) -> bool {
    n.kind == Kind::EArrow && n.children.len() == 2
}

/// The number of parameters of a function or arrow function.
pub open spec fn param_count(n: SpecNode) -> usize {
    if is_fn_shape(n) {
        n.children[1].children.len() as usize
    } else if is_arrow_shape(n) {
        n.children[0].children.len() as usize
    } else {
        0
    }
}

/// The context in which the `i`-th child of a node is analysed.
///
/// Tail position passes only through the last statement of a block, the
/// branches of an `if`, the block and handler of a `try` and the body of a
/// `catch`; a `return` puts its expression in tail position wherever it
/// stands in its function (its jump restarts the function's loop); a call is in tail position only as the expression of a
/// `return` or an expression statement in tail position.
pub open spec fn child_ctx(n: SpecNode, c: RecurCtx, i: int) -> RecurCtx {
    if is_fn_shape(n) {
        let fc = fn_ctx(c, param_count(n));
        if i == 2 { fc } else { opaque(fc) }
    } else if is_arrow_shape(n) {
        let fc = fn_ctx(c, param_count(n));
        if i != 1 {
            opaque(fc)
        } else if n.children[1].kind == Kind::SBlock {
            fc
        } else {
            RecurCtx { direct: true, ..fc }
        }
    } else if n.kind == Kind::SBlock {
        RecurCtx { tail: c.tail && i == n.children.len() - 1, direct: false, ..c }
    } else if n.kind == Kind::SIf && i > 0 {
        RecurCtx { direct: false, ..c }
    } else if n.kind == Kind::SReturn && i == 0 {
        RecurCtx { tail: true, direct: true, ..c }
    } else if n.kind == Kind::SExpr && i == 0 {
        RecurCtx { direct: true, ..c }
    } else if n.kind == Kind::STry && i < 2 {
        let has_finally = n.children.len() > 2 && n.children[2].kind != Kind::Absent;
        RecurCtx { in_try_with_finally: c.in_try_with_finally || has_finally, direct: false, ..c }
    } else if n.kind == Kind::STry && i == 2 {
        RecurCtx { in_finally: true, tail: false, direct: false, ..c }
    } else if n.kind == Kind::Catch && i == 1 {
        RecurCtx { direct: false, ..c }
    } else {
        opaque(c)
    }
}

/// Whether a node is a call of `recur`.
pub open spec fn is_recur_call(n: SpecNode) -> bool {
    n.kind == Kind::ECall && n.children.len() > 0 && is_ident_named(n.children[0], "recur"@)
}

/// The arguments of a call.
pub open spec fn call_args(call: SpecNode) -> Seq<SpecNode> {
    if call.children.len() > 1 && call.children[1].kind == Kind::Args {
        call.children[1].children
    } else {
        Seq::empty()
    }
}

/// The number of arguments of a call.
pub open spec fn arg_count(call: SpecNode) -> nat {
    call_args(call).len()
}

/// The errors a call reports itself.
pub open spec fn call_errors(n: SpecNode, c: RecurCtx) -> Seq<RecurError> {
    if is_recur_call(n) {
        let sp = n.children[0].span;
        let count = arg_count(n);
        (if !c.in_function {
            seq![RecurError::NotInFunction(sp)]
        } else {
            (if !(c.tail && c.direct) { seq![RecurError::NotInTailPosition(sp)] } else { Seq::empty() })
                + (if count != c.params {
                    seq![RecurError::ArityMismatch { span: sp, expected: c.params, got: count as usize }]
                } else {
                    Seq::empty()
                })
        }) + (if c.in_finally {
            seq![RecurError::InsideFinally(sp)]
        } else if c.in_try_with_finally {
            seq![RecurError::AcrossFinally(sp)]
        } else {
            Seq::empty()
        })
    } else {
        Seq::empty()
    }
}

/// Whether a node holds a call of `recur` of its own function (not counting
/// those in nested functions, which target them).
pub open spec fn calls_recur(n: SpecNode) -> bool
    decreases n,
{
    if is_recur_call(n) {
        true
    } else if n.kind == Kind::Absent || n.kind == Kind::EArrow || n.kind == Kind::EFn || n.kind == Kind::SFnDecl {
        false
    } else {
        any_calls_recur(n.children)
    }
}

pub open spec fn any_calls_recur(s: Seq<SpecNode>) -> bool
    decreases s,
{
    if s.len() == 0 {
        false
    } else {
        any_calls_recur(s.drop_last()) || calls_recur(s.last())
    }
}

/// The errors a node reports itself: those of a `recur` call, and that of an
/// arrow function whose expression body calls `recur`.
pub open spec fn own_errors(n: SpecNode, c: RecurCtx) -> Seq<RecurError> {
    if n.kind == Kind::ECall {
        call_errors(n, c)
    } else if is_arrow_shape(n) && n.children[1].kind != Kind::SBlock && calls_recur(n.children[1]) {
        seq![RecurError::ArrowExpressionBody(n.span)]
    } else {
        Seq::empty()
    }
}

/// The errors of the `recur` calls in a node, in the order they are met.
pub open spec fn recur_errors(n: SpecNode, c: RecurCtx) -> Seq<RecurError>
    decreases n, n.children.len() + 1,
{
    own_errors(n, c) + kid_errors(n, c, n.children.len() as int)
}

/// The errors of the first `k` children of a node, each in its own context.
pub open spec fn kid_errors(n: SpecNode, c: RecurCtx, k: int) -> Seq<RecurError>
    decreases n, k,
{
    if 0 < k <= n.children.len() {
        kid_errors(n, c, k - 1) + recur_errors(n.children[k - 1], child_ctx(n, c, k - 1))
    } else {
        Seq::empty()
    }
}

// ---------------------------------------------------------------------------
// Lowering

/// The pattern a parameter is reassigned through: the parameter without its
/// default value or its rest marker.
pub open spec fn param_target(p: SpecNode) -> SpecNode {
    if (p.kind == Kind::PDefault || p.kind == Kind::PRest) && p.children.len() >= 1 {
        p.children[0]
    } else {
        p
    }
}

/// The patterns a list of parameters is reassigned through, in order.
pub open spec fn param_targets(s: Seq<SpecNode>) -> Seq<SpecNode> {
    s.map_values(|p: SpecNode| param_target(p))
}

/// The name of the temporary that holds the `i`-th argument of a lowered `recur`.
pub open spec fn next_name(i: nat) -> Seq<char> {
    "__next"@ + decimal(i)
}

/// The expression of an argument.
pub open spec fn arg_expr(a: SpecNode) -> SpecNode {
    if a.kind == Kind::Arg && a.children.len() > 0 { a.children[0] } else { a }
}

pub open spec fn const_decl(name: Seq<char>, init: SpecNode) -> SpecNode {
    snode(Kind::SVar, dummy_span(), SpecPayload::Var(VarKind::Const), seq![
        snode(Kind::Declarator, dummy_span(), SpecPayload::Empty, seq![
            sleaf(Kind::PIdent, dummy_span(), SpecPayload::Name(name)),
            init,
        ]),
    ])
}

/// `p = source;` for an identifier parameter `p`, and `(pattern = source);`
/// for a destructuring one.
pub open spec fn assign_stmt(target: SpecNode, source: Seq<char>) -> SpecNode {
    let src = sleaf(Kind::EIdent, dummy_span(), SpecPayload::Name(source));
    if target.kind == Kind::PIdent {
        snode(Kind::SExpr, dummy_span(), SpecPayload::Empty, seq![
            snode(Kind::EAssign, dummy_span(), SpecPayload::Empty, seq![
                sleaf(Kind::PIdent, dummy_span(), target.payload),
                src,
            ]),
        ])
    } else {
        snode(Kind::SExpr, dummy_span(), SpecPayload::Empty, seq![
            snode(Kind::EParen, dummy_span(), SpecPayload::Empty, seq![
                snode(Kind::EAssign, dummy_span(), SpecPayload::Empty, seq![target, src]),
            ]),
        ])
    }
}

/// The label of the loop of a function whose `recur` may stand inside a loop
/// of its own.
pub open spec fn loop_label() -> Seq<char> {
    "__recur"@
}

/// The jump back to the start of the function's loop: `continue __recur;`
/// where the loop is labeled, `continue;` where it is not.
pub open spec fn continue_loop(labeled: bool) -> SpecNode {
    if labeled {
        sleaf(Kind::SContinue, dummy_span(), SpecPayload::Name(loop_label()))
    } else {
        sleaf(Kind::SContinue, dummy_span(), SpecPayload::Empty)
    }
}

/// The block a `recur(a0, .., an)` statement becomes, given the (lowered) argument
/// expressions and the parameters' patterns:
/// `{ const __next0 = a0; ..; p0 = __next0; ..; continue; }`,
/// one assignment for each argument that has a parameter at its position.
pub open spec fn recur_block(inits: Seq<SpecNode>, targets: Seq<SpecNode>, labeled: bool) -> SpecNode {
    let n = inits.len();
    let k = if n < targets.len() { n } else { targets.len() };
    snode(Kind::SBlock, dummy_span(), SpecPayload::Empty,
        Seq::new(n, |i: int| const_decl(next_name(i as nat), inits[i]))
            + Seq::new(k, |i: int| assign_stmt(targets[i], next_name(i as nat)))
            + seq![continue_loop(labeled)])
}

/// `return;`, which ends the loop when the body runs to its end.
pub open spec fn bare_return() -> SpecNode {
    snode(Kind::SReturn, dummy_span(), SpecPayload::Empty, seq![sleaf(Kind::Absent, dummy_span(), SpecPayload::Empty)])
}

/// Whether a statement may run to its end: every statement but `return`,
/// `throw` and `continue`, a block whose last statement cannot, an `if` whose
/// two branches cannot, and a `try` without `finally` whose block and handler
/// cannot.
pub open spec fn may_complete(n: SpecNode) -> bool
    decreases n,
{
    if n.kind == Kind::SReturn || n.kind == Kind::SThrow || n.kind == Kind::SContinue {
        false
    } else if n.kind == Kind::SBlock {
        n.children.len() == 0 || may_complete(n.children[n.children.len() - 1])
    } else if n.kind == Kind::SIf && n.children.len() == 3 {
        n.children[2].kind == Kind::Absent || may_complete(n.children[1]) || may_complete(n.children[2])
    } else if n.kind == Kind::STry && n.children.len() == 3 && n.children[2].kind == Kind::Absent {
        may_complete(n.children[0]) || (n.children[1].kind == Kind::Catch && n.children[1].children.len() == 2
            && may_complete(n.children[1].children[1]))
    } else {
        true
    }
}

/// A function body's statements inside `while (true) { .. }`, with `return;`
/// after them where they may run to their end (so that the function returns
/// there, as it did), the loop labeled `__recur` when `labeled`.
pub open spec fn loop_body(body: SpecNode, labeled: bool) -> SpecNode {
    let stmts = if body.children.len() == 0 || may_complete(body.children[body.children.len() - 1]) {
        body.children.push(bare_return())
    } else {
        body.children
    };
    let w = snode(Kind::SWhile, dummy_span(), SpecPayload::Empty, seq![
        sleaf(Kind::EBool, dummy_span(), SpecPayload::Bool(true)),
        snode(Kind::SBlock, dummy_span(), SpecPayload::Empty, stmts),
    ]);
    snode(Kind::SBlock, body.span, body.payload, seq![
        if labeled { snode(Kind::SLabeled, dummy_span(), SpecPayload::Name(loop_label()), seq![w]) } else { w },
    ])
}

/// Whether a statement is `return recur(..)` or `recur(..);`.
pub open spec fn is_recur_stmt(n: SpecNode) -> bool {
    (n.kind == Kind::SReturn || n.kind == Kind::SExpr) && n.children.len() > 0 && is_recur_call(n.children[0])
}

/// Whether a function's own statements (not those of nested functions) hold a
/// `recur` statement.
pub open spec fn has_recur_stmt(n: SpecNode) -> bool
    decreases n,
{
    if is_recur_stmt(n) {
        true
    } else if is_fn_shape(n) || is_arrow_shape(n) {
        false
    } else {
        any_recur_stmt(n.children)
    }
}

pub open spec fn any_recur_stmt(s: Seq<SpecNode>) -> bool
    decreases s,
{
    if s.len() == 0 {
        false
    } else {
        any_recur_stmt(s.drop_last()) || has_recur_stmt(s.last())
    }
}

/// Whether a `continue` could reach no further than a node's children: a
/// block, an `if`, a `try` or a `catch`, which hold no loop of their own.
pub open spec fn transparent(n: SpecNode) -> bool {
    n.kind == Kind::SBlock || n.kind == Kind::SIf || n.kind == Kind::STry || n.kind == Kind::Catch
}

/// Whether a function's own statements hold a `recur` statement below a
/// statement that may be a loop of its own (`deep` once one was passed).
pub open spec fn deep_recur(n: SpecNode, deep: bool) -> bool
    decreases n,
{
    if is_recur_stmt(n) {
        deep
    } else if is_fn_shape(n) || is_arrow_shape(n) {
        false
    } else {
        any_deep_recur(n.children, deep || !transparent(n))
    }
}

pub open spec fn any_deep_recur(s: Seq<SpecNode>, deep: bool) -> bool
    decreases s,
{
    if s.len() == 0 {
        false
    } else {
        any_deep_recur(s.drop_last(), deep) || deep_recur(s.last(), deep)
    }
}

/// A node with every function in it lowered. A function's parameters are
/// reassigned through their patterns (taken from the lowered parameters), and
/// its loop is labeled only where a `recur` stands below a loop of its own.
pub open spec fn lower(n: SpecNode) -> SpecNode
    decreases n, 0nat,
{
    if (n.kind == Kind::EFn || n.kind == Kind::SFnDecl) && n.children.len() == 3 {
        let params = n.children[1];
        let body = n.children[2];
        let pre = lower_in_fn(params, Seq::empty(), false);
        let ts = param_targets(pre.children);
        let lab = deep_recur(body, false);
        let body2 = lower_in_fn(body, ts, lab);
        snode(n.kind, n.span, n.payload, seq![
            lower_in_fn(n.children[0], ts, lab),
            pre,
            if (has_recur_stmt(params) || has_recur_stmt(body)) && body.kind == Kind::SBlock {
                loop_body(body2, lab)
            } else {
                body2
            },
        ])
    } else if n.kind == Kind::EArrow && n.children.len() == 2 {
        let body = n.children[1];
        let pre = lower_in_fn(n.children[0], Seq::empty(), false);
        let ts = param_targets(pre.children);
        let lab = deep_recur(body, false);
        let body2 = lower_in_fn(body, ts, lab);
        snode(n.kind, n.span, n.payload, seq![
            pre,
            if has_recur_stmt(body) && body.kind == Kind::SBlock { loop_body(body2, lab) } else { body2 },
        ])
    } else {
        snode(n.kind, n.span, n.payload, lower_list(n.children))
    }
}

pub open spec fn lower_list(s: Seq<SpecNode>) -> Seq<SpecNode>
    decreases s,
{
    if s.len() == 0 {
        Seq::empty()
    } else {
        lower_list(s.drop_last()).push(lower(s.last()))
    }
}

/// A node of a function being lowered, whose parameters are reassigned through
/// `ts`: its `recur` statements become jumps back to the start of the loop,
/// nested functions are lowered on their own.
pub open spec fn lower_in_fn(n: SpecNode, ts: Seq<SpecNode>, lab: bool) -> SpecNode
    decreases n, 1nat,
{
    if is_recur_stmt(n) {
        let call = n.children[0];
        if call.children.len() > 1 && call.children[1].kind == Kind::Args {
            proof {
                assert(decreases_to!(n => call));
                assert(decreases_to!(call => call.children[1]));
                assert(decreases_to!(call.children[1] => call.children[1].children));
                assert(decreases_to!(n => call.children[1].children));
            }
            recur_block(lower_args(call.children[1].children, ts, lab), ts, lab)
        } else {
            recur_block(Seq::empty(), ts, lab)
        }
    } else if is_fn_shape(n) || is_arrow_shape(n) {
        lower(n)
    } else {
        snode(n.kind, n.span, n.payload, lower_in_fn_list(n.children, ts, lab))
    }
}

pub open spec fn lower_in_fn_list(s: Seq<SpecNode>, ts: Seq<SpecNode>, lab: bool) -> Seq<SpecNode>
    decreases s,
{
    if s.len() == 0 {
        Seq::empty()
    } else {
        lower_in_fn_list(s.drop_last(), ts, lab).push(lower_in_fn(s.last(), ts, lab))
    }
}

/// The lowered expressions of a list of arguments.
pub open spec fn lower_args(s: Seq<SpecNode>, ts: Seq<SpecNode>, lab: bool) -> Seq<SpecNode>
    decreases s,
{
    if s.len() == 0 {
        Seq::empty()
    } else {
        proof {
            let a = s.last();
            assert(decreases_to!(s => a));
            if a.kind == Kind::Arg && a.children.len() > 0 {
                assert(decreases_to!(a => a.children[0]));
            }
        }
        lower_args(s.drop_last(), ts, lab).push(lower_in_fn(arg_expr(s.last()), ts, lab))
    }
}

// ---------------------------------------------------------------------------
// Executable analysis and lowering

pub open spec fn texts(v: Vec<String>) -> Seq<Seq<char>> {
    v@.map_values(|s: String| s@)
}

fn name_is(n: &Node, lit: &str) -> (b: bool)
    ensures
        b == (n@.payload == SpecPayload::Name(lit@)),
{
    match &n.payload {
        Payload::Name(s) => same_text(s, lit),
        _ => false,
    }
}

/// Whether a node is a call of `recur`.
pub fn is_recur_call_node(n: &Node) -> (b: bool)
    ensures
        b == is_recur_call(n@),
{
    proof {
        lemma_view_nodes(n.children@);
    }
    n.kind == Kind::ECall && n.children.len() > 0 && n.children[0].kind == Kind::EIdent
        && name_is(&n.children[0], "recur")
}

fn calls_recur_node(n: &Node) -> (b: bool)
    ensures
        b == calls_recur(n@),
    decreases n,
{
    proof {
        lemma_view_nodes(n.children@);
    }
    if is_recur_call_node(n) {
        true
    } else if n.kind == Kind::Absent || n.kind == Kind::EArrow || n.kind == Kind::EFn || n.kind == Kind::SFnDecl {
        false
    } else {
        let mut i: usize = 0;
        let mut acc = false;
        while i < n.children.len()
            invariant
                i <= n.children.len(),
                view_nodes(n.children@).len() == n.children.len(),
                forall|j: int| 0 <= j < n.children.len() ==> #[trigger] view_nodes(n.children@)[j] == view_node(n.children@[j]),
                acc == any_calls_recur(view_nodes(n.children@).take(i as int)),
            decreases n.children.len() - i,
        {
            let b = calls_recur_node(&n.children[i]);
            assert(view_nodes(n.children@).take(i + 1).drop_last() =~= view_nodes(n.children@).take(i as int));
            acc = acc || b;
            i = i + 1;
        }
        assert(view_nodes(n.children@).take(n.children.len() as int) =~= view_nodes(n.children@));
        acc
    }
}

fn call_errors_node(n: &Node, c: RecurCtx, out: &mut Vec<RecurError>)
    ensures
        final(out)@ == old(out)@ + call_errors(n@, c),
{
    proof {
        lemma_view_nodes(n.children@);
    }
    if !is_recur_call_node(n) {
        assert(old(out)@ + call_errors(n@, c) =~= old(out)@);
        return;
    }
    let sp = n.children[0].span;
    let count = if n.children.len() > 1 && n.children[1].kind == Kind::Args {
        n.children[1].children.len()
    } else {
        0
    };
    proof {
        if n.children.len() > 1 {
            lemma_view_nodes(n.children[1].children@);
        }
    }
    assert(count == arg_count(n@));
    let ghost before = out@;
    if !c.in_function {
        out.push(RecurError::NotInFunction(sp));
    } else {
        if !(c.tail && c.direct) {
            out.push(RecurError::NotInTailPosition(sp));
        }
        if count != c.params {
            out.push(RecurError::ArityMismatch { span: sp, expected: c.params, got: count });
        }
    }
    if c.in_finally {
        out.push(RecurError::InsideFinally(sp));
    } else if c.in_try_with_finally {
        out.push(RecurError::AcrossFinally(sp));
    }
    assert(out@ =~= before + call_errors(n@, c));
}

/// The context in which the `i`-th child of a node is analysed.
fn child_ctx_of(n: &Node, c: RecurCtx, i: usize) -> (r: RecurCtx)
    requires
        i < n.children.len(),
    ensures
        r == child_ctx(n@, c, i as int),
{
    proof {
        lemma_view_nodes(n.children@);
    }
    let len = n.children.len();
    let fn_shape = (n.kind == Kind::EFn || n.kind == Kind::SFnDecl) && len == 3;
    let arrow_shape = n.kind == Kind::EArrow && len == 2;
    if fn_shape || arrow_shape {
        let count = if fn_shape { n.children[1].children.len() } else { n.children[0].children.len() };
        proof {
            lemma_view_nodes(n.children[0].children@);
            if fn_shape {
                lemma_view_nodes(n.children[1].children@);
            }
        }
        let fc = RecurCtx {
            in_function: true,
            params: count,
            in_try_with_finally: false,
            in_finally: false,
            tail: true,
            direct: false,
        };
        if fn_shape {
            if i == 2 { fc } else { RecurCtx { tail: false, direct: false, ..fc } }
        } else if i != 1 {
            RecurCtx { tail: false, direct: false, ..fc }
        } else if n.children[1].kind == Kind::SBlock {
            fc
        } else {
            RecurCtx { direct: true, ..fc }
        }
    } else if n.kind == Kind::SBlock {
        RecurCtx { tail: c.tail && i == len - 1, direct: false, ..c }
    } else if n.kind == Kind::SIf && i > 0 {
        RecurCtx { direct: false, ..c }
    } else if n.kind == Kind::SReturn && i == 0 {
        RecurCtx { tail: true, direct: true, ..c }
    } else if n.kind == Kind::SExpr && i == 0 {
        RecurCtx { direct: true, ..c }
    } else if n.kind == Kind::STry && i < 2 {
        let has_finally = len > 2 && n.children[2].kind != Kind::Absent;
        RecurCtx { in_try_with_finally: c.in_try_with_finally || has_finally, direct: false, ..c }
    } else if n.kind == Kind::STry && i == 2 {
        RecurCtx { in_finally: true, tail: false, direct: false, ..c }
    } else if n.kind == Kind::Catch && i == 1 {
        RecurCtx { direct: false, ..c }
    } else {
        RecurCtx { tail: false, direct: false, ..c }
    }
}

/// Appends the errors of the `recur` calls in a node, in the order they are met.
pub fn collect_recur_errors(n: &Node, c: RecurCtx, out: &mut Vec<RecurError>)
    ensures
        final(out)@ == old(out)@ + recur_errors(n@, c),
    decreases n,
{
    proof {
        lemma_view_nodes(n.children@);
    }
    let ghost before = out@;
    let len = n.children.len();
    if n.kind == Kind::ECall {
        call_errors_node(n, c, out);
    } else if n.kind == Kind::EArrow && len == 2 && n.children[1].kind != Kind::SBlock
        && calls_recur_node(&n.children[1]) {
        out.push(RecurError::ArrowExpressionBody(n.span));
    }
    assert(out@ =~= before + own_errors(n@, c));
    let ghost mid = out@;
    let mut i: usize = 0;
    while i < len
        invariant
            i <= len,
            len == n.children.len(),
            view_nodes(n.children@).len() == len,
            forall|j: int| 0 <= j < len ==> #[trigger] view_nodes(n.children@)[j] == view_node(n.children@[j]),
            out@ == mid + kid_errors(n@, c, i as int),
        decreases len - i,
    {
        let cc = child_ctx_of(n, c, i);
        collect_recur_errors(&n.children[i], cc, out);
        assert(out@ =~= mid + kid_errors(n@, c, i + 1));
        i = i + 1;
    }
    assert(out@ =~= before + recur_errors(n@, c));
}

/// The `recur` errors of a whole module.
pub fn analyze_recur(module: &Node) -> (errs: Vec<RecurError>)
    ensures
        errs@ == recur_errors(module@, top_ctx()),
{
    let mut out: Vec<RecurError> = Vec::new();
    let c = RecurCtx {
        in_function: false,
        params: 0,
        in_try_with_finally: false,
        in_finally: false,
        tail: false,
        direct: false,
    };
    collect_recur_errors(module, c, &mut out);
    assert(out@ =~= recur_errors(module@, top_ctx()));
    out
}

fn is_recur_stmt_node(n: &Node) -> (b: bool)
    ensures
        b == is_recur_stmt(n@),
{
    proof {
        lemma_view_nodes(n.children@);
    }
    (n.kind == Kind::SReturn || n.kind == Kind::SExpr) && n.children.len() > 0 && is_recur_call_node(&n.children[0])
}

fn has_recur_stmt_node(n: &Node) -> (b: bool)
    ensures
        b == has_recur_stmt(n@),
    decreases n,
{
    proof {
        lemma_view_nodes(n.children@);
    }
    if is_recur_stmt_node(n) {
        true
    } else if ((n.kind == Kind::EFn || n.kind == Kind::SFnDecl) && n.children.len() == 3) || (n.kind == Kind::EArrow && n.children.len() == 2) {
        false
    } else {
        let mut i: usize = 0;
        let mut acc = false;
        while i < n.children.len()
            invariant
                i <= n.children.len(),
                view_nodes(n.children@).len() == n.children.len(),
                forall|j: int| 0 <= j < n.children.len() ==> #[trigger] view_nodes(n.children@)[j] == view_node(n.children@[j]),
                acc == any_recur_stmt(view_nodes(n.children@).take(i as int)),
            decreases n.children.len() - i,
        {
            let b = has_recur_stmt_node(&n.children[i]);
            assert(view_nodes(n.children@).take(i + 1).drop_last() =~= view_nodes(n.children@).take(i as int));
            acc = acc || b;
            i = i + 1;
        }
        assert(view_nodes(n.children@).take(n.children.len() as int) =~= view_nodes(n.children@));
        acc
    }
}

fn deep_recur_node(n: &Node, deep: bool) -> (b: bool)
    ensures
        b == deep_recur(n@, deep),
    decreases n,
{
    proof {
        lemma_view_nodes(n.children@);
    }
    if is_recur_stmt_node(n) {
        deep
    } else if ((n.kind == Kind::EFn || n.kind == Kind::SFnDecl) && n.children.len() == 3) || (n.kind == Kind::EArrow && n.children.len() == 2) {
        false
    } else {
        let inner = deep || !(n.kind == Kind::SBlock || n.kind == Kind::SIf || n.kind == Kind::STry || n.kind == Kind::Catch);
        let mut i: usize = 0;
        let mut acc = false;
        while i < n.children.len()
            invariant
                i <= n.children.len(),
                inner == (deep || !transparent(n@)),
                view_nodes(n.children@).len() == n.children.len(),
                forall|j: int| 0 <= j < n.children.len() ==> #[trigger] view_nodes(n.children@)[j] == view_node(n.children@[j]),
                acc == any_deep_recur(view_nodes(n.children@).take(i as int), inner),
            decreases n.children.len() - i,
        {
            let b = deep_recur_node(&n.children[i], inner);
            assert(view_nodes(n.children@).take(i + 1).drop_last() =~= view_nodes(n.children@).take(i as int));
            acc = acc || b;
            i = i + 1;
        }
        assert(view_nodes(n.children@).take(n.children.len() as int) =~= view_nodes(n.children@));
        acc
    }
}

fn may_complete_node(n: &Node) -> (b: bool)
    ensures
        b == may_complete(n@),
    decreases n,
{
    proof {
        lemma_view_nodes(n.children@);
    }
    let len = n.children.len();
    if n.kind == Kind::SReturn || n.kind == Kind::SThrow || n.kind == Kind::SContinue {
        false
    } else if n.kind == Kind::SBlock {
        len == 0 || may_complete_node(&n.children[len - 1])
    } else if n.kind == Kind::SIf && len == 3 {
        n.children[2].kind == Kind::Absent || may_complete_node(&n.children[1]) || may_complete_node(&n.children[2])
    } else if n.kind == Kind::STry && len == 3 && n.children[2].kind == Kind::Absent {
        let h = &n.children[1];
        proof {
            lemma_view_nodes(h.children@);
        }
        may_complete_node(&n.children[0]) || (h.kind == Kind::Catch && h.children.len() == 2
            && may_complete_node(&h.children[1]))
    } else {
        true
    }
}

fn param_targets_exec(v: &Vec<Node>) -> (r: Vec<Node>)
    ensures
        nodes_view(r) == param_targets(nodes_view(*v)),
{
    let mut out: Vec<Node> = Vec::new();
    let mut i: usize = 0;
    proof {
        lemma_view_nodes(v@);
    }
    while i < v.len()
        invariant
            i <= v.len(),
            view_nodes(v@).len() == v.len(),
            forall|j: int| 0 <= j < v.len() ==> #[trigger] view_nodes(v@)[j] == view_node(v@[j]),
            nodes_view(out) =~= param_targets(view_nodes(v@).take(i as int)),
        decreases v.len() - i,
    {
        let p = &v[i];
        proof {
            lemma_view_nodes(p.children@);
        }
        let t = if (p.kind == Kind::PDefault || p.kind == Kind::PRest) && p.children.len() >= 1 {
            copy_node(&p.children[0])
        } else {
            copy_node(p)
        };
        push_node(&mut out, t);
        i = i + 1;
    }
    assert(view_nodes(v@).take(v.len() as int) =~= view_nodes(v@));
    out
}

fn next_name_text(i: usize) -> (s: String)
    ensures
        s@ == next_name(i as nat),
{
    concat("__next", decimal_text(i).as_str())
}

fn name_leaf(kind: Kind, name: String) -> (n: Node)
    ensures
        n@ == sleaf(kind, dummy_span(), SpecPayload::Name(name@)),
{
    let n = Node { kind, span: dummy(), payload: Payload::Name(name), children: Vec::new() };
    assert(n@.children =~= Seq::<SpecNode>::empty());
    n
}

fn const_decl_node(name: String, init: Node) -> (n: Node)
    ensures
        n@ == const_decl(name@, init@),
{
    let pat = name_leaf(Kind::PIdent, name);
    let d = make(Kind::Declarator, dummy(), Payload::Empty, two(pat, init));
    make(Kind::SVar, dummy(), Payload::Var(VarKind::Const), one(d))
}

fn assign_stmt_node(target: &Node, source: String) -> (n: Node)
    ensures
        n@ == assign_stmt(target@, source@),
{
    let s = name_leaf(Kind::EIdent, source);
    if target.kind == Kind::PIdent {
        let t = Node { kind: Kind::PIdent, span: dummy(), payload: crate::ast::copy_payload(&target.payload), children: Vec::new() };
        assert(t@.children =~= Seq::<SpecNode>::empty());
        let a = make(Kind::EAssign, dummy(), Payload::Empty, two(t, s));
        make(Kind::SExpr, dummy(), Payload::Empty, one(a))
    } else {
        let a = make(Kind::EAssign, dummy(), Payload::Empty, two(copy_node(target), s));
        let p = make(Kind::EParen, dummy(), Payload::Empty, one(a));
        make(Kind::SExpr, dummy(), Payload::Empty, one(p))
    }
}

fn continue_node(lab: bool) -> (n: Node)
    ensures
        n@ == continue_loop(lab),
{
    if lab {
        name_leaf(Kind::SContinue, owned("__recur"))
    } else {
        leaf(Kind::SContinue, dummy())
    }
}

fn recur_block_node(inits: &Vec<Node>, ts: &Vec<Node>, lab: bool) -> (r: Node)
    ensures
        r@ == recur_block(nodes_view(*inits), nodes_view(*ts), lab),
{
    let ghost iv = nodes_view(*inits);
    let ghost tv = nodes_view(*ts);
    proof {
        lemma_view_nodes(inits@);
        lemma_view_nodes(ts@);
    }
    let n = inits.len();
    let k = if n < ts.len() { n } else { ts.len() };
    let mut out: Vec<Node> = Vec::new();
    let mut i: usize = 0;
    while i < n
        invariant
            i <= n,
            n == inits.len(),
            iv == nodes_view(*inits),
            iv.len() == n,
            forall|j: int| 0 <= j < n ==> #[trigger] iv[j] == view_node(inits@[j]),
            nodes_view(out) =~= Seq::new(i as nat, |j: int| const_decl(next_name(j as nat), iv[j])),
        decreases n - i,
    {
        let init = copy_node(&inits[i]);
        let d = const_decl_node(next_name_text(i), init);
        push_node(&mut out, d);
        i = i + 1;
    }
    let ghost decls = nodes_view(out);
    let mut j: usize = 0;
    while j < k
        invariant
            j <= k,
            k <= ts.len(),
            tv == nodes_view(*ts),
            tv.len() == ts.len(),
            forall|q: int| 0 <= q < ts.len() ==> #[trigger] tv[q] == view_node(ts@[q]),
            nodes_view(out) =~= decls + Seq::new(j as nat, |q: int| assign_stmt(tv[q], next_name(q as nat))),
        decreases k - j,
    {
        let a = assign_stmt_node(&ts[j], next_name_text(j));
        push_node(&mut out, a);
        j = j + 1;
    }
    push_node(&mut out, continue_node(lab));
    assert(nodes_view(out) =~= Seq::new(n as nat, |q: int| const_decl(next_name(q as nat), iv[q]))
        + Seq::new(k as nat, |q: int| assign_stmt(tv[q], next_name(q as nat)))
        + seq![continue_loop(lab)]);
    make(Kind::SBlock, dummy(), Payload::Empty, out)
}

fn loop_body_node(body: Node, lab: bool) -> (r: Node)
    ensures
        r@ == loop_body(body@, lab),
{
    proof {
        lemma_view_nodes(body.children@);
    }
    let completes = body.children.len() == 0 || may_complete_node(&body.children[body.children.len() - 1]);
    let Node { kind: _, span, payload, children } = body;
    let t = Node { kind: Kind::EBool, span: dummy(), payload: Payload::Bool(true), children: Vec::new() };
    assert(t@.children =~= Seq::<SpecNode>::empty());
    let mut children = children;
    if completes {
        let ret = make(Kind::SReturn, dummy(), Payload::Empty, one(leaf(Kind::Absent, dummy())));
        push_node(&mut children, ret);
    }
    let inner = make(Kind::SBlock, dummy(), Payload::Empty, children);
    let w = make(Kind::SWhile, dummy(), Payload::Empty, two(t, inner));
    let top = if lab { make(Kind::SLabeled, dummy(), Payload::Name(owned("__recur")), one(w)) } else { w };
    make(Kind::SBlock, span, payload, one(top))
}

/// A node with every function in it lowered.
pub fn lower_node(n: &Node) -> (r: Node)
    ensures
        r@ == lower(n@),
    decreases n, 0nat,
{
    proof {
        lemma_view_nodes(n.children@);
    }
    if (n.kind == Kind::EFn || n.kind == Kind::SFnDecl) && n.children.len() == 3 {
        let params = &n.children[1];
        let body = &n.children[2];
        let none: Vec<Node> = Vec::new();
        assert(nodes_view(none) =~= Seq::<SpecNode>::empty());
        let pre = lower_node_in_fn(params, &none, false);
        proof {
            lemma_view_nodes(pre.children@);
        }
        let ts = param_targets_exec(&pre.children);
        let lab = deep_recur_node(body, false);
        let hit = has_recur_stmt_node(params) || has_recur_stmt_node(body);
        let body2 = lower_node_in_fn(body, &ts, lab);
        let body3 = if hit && body.kind == Kind::SBlock { loop_body_node(body2, lab) } else { body2 };
        let name = lower_node_in_fn(&n.children[0], &ts, lab);
        make(n.kind, n.span, crate::ast::copy_payload(&n.payload), crate::ast::three(name, pre, body3))
    } else if n.kind == Kind::EArrow && n.children.len() == 2 {
        let body = &n.children[1];
        let none: Vec<Node> = Vec::new();
        assert(nodes_view(none) =~= Seq::<SpecNode>::empty());
        let pre = lower_node_in_fn(&n.children[0], &none, false);
        proof {
            lemma_view_nodes(pre.children@);
        }
        let ts = param_targets_exec(&pre.children);
        let lab = deep_recur_node(body, false);
        let hit = has_recur_stmt_node(body);
        let body2 = lower_node_in_fn(body, &ts, lab);
        let body3 = if hit && body.kind == Kind::SBlock { loop_body_node(body2, lab) } else { body2 };
        make(n.kind, n.span, crate::ast::copy_payload(&n.payload), two(pre, body3))
    } else {
        let children = lower_nodes(&n.children);
        make(n.kind, n.span, crate::ast::copy_payload(&n.payload), children)
    }
}

/// Every node of a list lowered.
pub fn lower_nodes(v: &Vec<Node>) -> (r: Vec<Node>)
    ensures
        nodes_view(r) == lower_list(nodes_view(*v)),
    decreases v,
{
    let mut out: Vec<Node> = Vec::new();
    let mut i: usize = 0;
    proof {
        lemma_view_nodes(v@);
    }
    while i < v.len()
        invariant
            i <= v.len(),
            view_nodes(v@).len() == v.len(),
            forall|j: int| 0 <= j < v.len() ==> #[trigger] view_nodes(v@)[j] == view_node(v@[j]),
            nodes_view(out) == lower_list(view_nodes(v@).take(i as int)),
        decreases v.len() - i,
    {
        let x = lower_node(&v[i]);
        push_node(&mut out, x);
        assert(view_nodes(v@).take(i + 1).drop_last() =~= view_nodes(v@).take(i as int));
        i = i + 1;
    }
    assert(view_nodes(v@).take(v.len() as int) =~= view_nodes(v@));
    out
}

fn lower_node_in_fn(n: &Node, ts: &Vec<Node>, lab: bool) -> (r: Node)
    ensures
        r@ == lower_in_fn(n@, nodes_view(*ts), lab),
    decreases n, 1nat,
{
    proof {
        lemma_view_nodes(n.children@);
    }
    if is_recur_stmt_node(n) {
        let call = &n.children[0];
        proof {
            lemma_view_nodes(call.children@);
        }
        if call.children.len() > 1 && call.children[1].kind == Kind::Args {
            proof {
                assert(decreases_to!(*n => n.children));
                assert(decreases_to!(n.children => n.children@));
                assert(decreases_to!(n.children@ => *call));
                assert(decreases_to!(*call => call.children));
                assert(decreases_to!(call.children => call.children@));
                assert(decreases_to!(call.children@ => call.children@[1]));
                assert(decreases_to!(call.children@[1] => call.children@[1].children));
            }
            let inits = lower_args_exec(&call.children[1].children, ts, lab);
            recur_block_node(&inits, ts, lab)
        } else {
            let inits: Vec<Node> = Vec::new();
            assert(nodes_view(inits) =~= Seq::<SpecNode>::empty());
            recur_block_node(&inits, ts, lab)
        }
    } else if ((n.kind == Kind::EFn || n.kind == Kind::SFnDecl) && n.children.len() == 3) || (n.kind == Kind::EArrow && n.children.len() == 2) {
        lower_node(n)
    } else {
        let mut out: Vec<Node> = Vec::new();
        let mut i: usize = 0;
        while i < n.children.len()
            invariant
                i <= n.children.len(),
                view_nodes(n.children@).len() == n.children.len(),
                forall|j: int| 0 <= j < n.children.len() ==> #[trigger] view_nodes(n.children@)[j] == view_node(n.children@[j]),
                nodes_view(out) == lower_in_fn_list(view_nodes(n.children@).take(i as int), nodes_view(*ts), lab),
            decreases n.children.len() - i,
        {
            let x = lower_node_in_fn(&n.children[i], ts, lab);
            push_node(&mut out, x);
            assert(view_nodes(n.children@).take(i + 1).drop_last() =~= view_nodes(n.children@).take(i as int));
            i = i + 1;
        }
        assert(view_nodes(n.children@).take(n.children.len() as int) =~= view_nodes(n.children@));
        make(n.kind, n.span, crate::ast::copy_payload(&n.payload), out)
    }
}

fn lower_args_exec(v: &Vec<Node>, ts: &Vec<Node>, lab: bool) -> (r: Vec<Node>)
    ensures
        nodes_view(r) == lower_args(nodes_view(*v), nodes_view(*ts), lab),
    decreases v,
{
    let mut out: Vec<Node> = Vec::new();
    let mut i: usize = 0;
    proof {
        lemma_view_nodes(v@);
    }
    while i < v.len()
        invariant
            i <= v.len(),
            view_nodes(v@).len() == v.len(),
            forall|j: int| 0 <= j < v.len() ==> #[trigger] view_nodes(v@)[j] == view_node(v@[j]),
            nodes_view(out) == lower_args(view_nodes(v@).take(i as int), nodes_view(*ts), lab),
        decreases v.len() - i,
    {
        let a = &v[i];
        proof {
            lemma_view_nodes(a.children@);
        }
        let x = if a.kind == Kind::Arg && a.children.len() > 0 {
            lower_node_in_fn(&a.children[0], ts, lab)
        } else {
            lower_node_in_fn(a, ts, lab)
        };
        push_node(&mut out, x);
        assert(view_nodes(v@).take(i + 1).drop_last() =~= view_nodes(v@).take(i as int));
        i = i + 1;
    }
    assert(view_nodes(v@).take(v.len() as int) =~= view_nodes(v@));
    out
}

// ---------------------------------------------------------------------------
// Reporting

/// The message of an error.
pub open spec fn error_message(e: RecurError) -> Seq<char> {
    match e {
        RecurError::NotInFunction(_) => "recur is only allowed inside a function"@,
        RecurError::NotInTailPosition(_) => "recur is only allowed in tail position"@,
        RecurError::ArityMismatch { expected, got, .. } => "recur arity mismatch: expected "@
            + decimal(expected as nat) + " arguments, got "@ + decimal(got as nat),
        RecurError::InsideFinally(_) => "recur is invalid inside a finally block"@,
        RecurError::AcrossFinally(_) => "recur is invalid across a finally clause"@,
        RecurError::ArrowExpressionBody(_) => "recur is NOT allowed in arrow functions with expression bodies"@,
    }
}

pub open spec fn error_span(e: RecurError) -> Span {
    match e {
        RecurError::NotInFunction(sp) => sp,
        RecurError::NotInTailPosition(sp) => sp,
        RecurError::ArityMismatch { span, .. } => span,
        RecurError::InsideFinally(sp) => sp,
        RecurError::AcrossFinally(sp) => sp,
        RecurError::ArrowExpressionBody(sp) => sp,
    }
}

/// A span as the source map prints it: `lo..hi`.
pub open spec fn span_text(sp: Span) -> Seq<char> {
    decimal(sp.lo as nat) + ".."@ + decimal(sp.hi as nat)
}

/// One line of an analysis report.
pub open spec fn report_line(e: RecurError) -> Seq<char> {
    "[AnalysisError] "@ + error_message(e) + ": "@ + span_text(error_span(e)) + "\n"@
}

/// The report of a list of errors: one line each, in order.
pub open spec fn report(errs: Seq<RecurError>) -> Seq<char>
    decreases errs.len(),
{
    if errs.len() == 0 {
        Seq::empty()
    } else {
        report(errs.drop_last()) + report_line(errs.last())
    }
}

fn append(s: String, t: &str) -> (r: String)
    ensures
        r@ == s@ + t@,
{
    concat(s.as_str(), t)
}

/// The message of an error.
pub fn recur_error_message(e: RecurError) -> (m: String)
    ensures
        m@ == error_message(e),
{
    match e {
        RecurError::NotInFunction(_) => owned("recur is only allowed inside a function"),
        RecurError::NotInTailPosition(_) => owned("recur is only allowed in tail position"),
        RecurError::ArityMismatch { expected, got, .. } => {
            let m = append(owned("recur arity mismatch: expected "), decimal_text(expected).as_str());
            let m = append(m, " arguments, got ");
            append(m, decimal_text(got).as_str())
        },
        RecurError::InsideFinally(_) => owned("recur is invalid inside a finally block"),
        RecurError::AcrossFinally(_) => owned("recur is invalid across a finally clause"),
        RecurError::ArrowExpressionBody(_) => owned("recur is NOT allowed in arrow functions with expression bodies"),
    }
}

fn error_span_of(e: RecurError) -> (sp: Span)
    ensures
        sp == error_span(e),
{
    match e {
        RecurError::NotInFunction(sp) => sp,
        RecurError::NotInTailPosition(sp) => sp,
        RecurError::ArityMismatch { span, .. } => span,
        RecurError::InsideFinally(sp) => sp,
        RecurError::AcrossFinally(sp) => sp,
        RecurError::ArrowExpressionBody(sp) => sp,
    }
}

/// The report of a list of errors: `[AnalysisError] message: lo..hi` and a newline, each.
pub fn recur_report(errs: &Vec<RecurError>) -> (r: String)
    ensures
        r@ == report(errs@),
{
    let mut out = String::new();
    let mut i: usize = 0;
    while i < errs.len()
        invariant
            i <= errs.len(),
            out@ == report(errs@.take(i as int)),
        decreases errs.len() - i,
    {
        let e = errs[i];
        let sp = error_span_of(e);
        let line = append(owned("[AnalysisError] "), recur_error_message(e).as_str());
        let line = append(line, ": ");
        let line = append(line, decimal_text(sp.lo as usize).as_str());
        let line = append(line, "..");
        let line = append(line, decimal_text(sp.hi as usize).as_str());
        let line = append(line, "\n");
        assert(errs@.take(i + 1).drop_last() =~= errs@.take(i as int));
        out = append(out, line.as_str());
        assert(out@ =~= report(errs@.take(i + 1)));
        i = i + 1;
    }
    assert(errs@.take(errs.len() as int) =~= errs@);
    out
}

/// `lower_recur`: checks every `recur` call of a module, then lowers every
/// function that holds `recur` statements to a `while (true)` loop. Fails with
/// the report of the errors when there are any.
pub fn lower_recur(module: &Node) -> (r: Result<Node, String>)
    ensures
        match r {
            Ok(m) => recur_errors(module@, top_ctx()).len() == 0 && m@ == lower(module@)
                && !mentions_recur(m@) && recur_arities_match(module@, None),
            Err(msg) => recur_errors(module@, top_ctx()).len() > 0
                && msg@ == report(recur_errors(module@, top_ctx())),
        },
{
    let errs = analyze_recur(module);
    if errs.len() > 0 {
        return Err(recur_report(&errs));
    }
    proof {
        lemma_accepted_recur_lowered(module@);
        lemma_accepted_recur_arities(module@, top_ctx());
    }
    Ok(lower_node(module))
}

// ---------------------------------------------------------------------------
// Laws

/// Whether a node holds a call of `recur` anywhere.
pub open spec fn mentions_recur(n: SpecNode) -> bool
    decreases n,
{
    is_recur_call(n) || any_mentions_recur(n.children)
}

pub open spec fn any_mentions_recur(s: Seq<SpecNode>) -> bool
    decreases s,
{
    if s.len() == 0 {
        false
    } else {
        any_mentions_recur(s.drop_last()) || mentions_recur(s.last())
    }
}

proof fn lemma_any_mentions(s: Seq<SpecNode>, i: int)
    requires
        !any_mentions_recur(s),
        0 <= i < s.len(),
    ensures
        !mentions_recur(s[i]),
    decreases s.len(),
{
    if i < s.len() - 1 {
        lemma_any_mentions(s.drop_last(), i);
    }
}

proof fn lemma_none_mention(s: Seq<SpecNode>)
    requires
        forall|i: int| 0 <= i < s.len() ==> !mentions_recur(#[trigger] s[i]),
    ensures
        !any_mentions_recur(s),
    decreases s.len(),
{
    if s.len() > 0 {
        assert forall|i: int| 0 <= i < s.drop_last().len() implies !mentions_recur(#[trigger] s.drop_last()[i]) by {
            assert(s.drop_last()[i] == s[i]);
        }
        lemma_none_mention(s.drop_last());
    }
}

/// Each child's errors are among those of its parent.
proof fn lemma_kid_errors_le(n: SpecNode, c: RecurCtx, k: int, i: int)
    requires
        0 <= i < k <= n.children.len(),
    ensures
        recur_errors(n.children[i], child_ctx(n, c, i)).len() <= kid_errors(n, c, k).len(),
    decreases k,
{
    if i < k - 1 {
        lemma_kid_errors_le(n, c, k - 1, i);
    }
}

proof fn lemma_kid_errors_empty(n: SpecNode, c: RecurCtx, k: int)
    requires
        0 <= k <= n.children.len(),
        forall|i: int| 0 <= i < k ==> recur_errors(#[trigger] n.children[i], child_ctx(n, c, i)).len() == 0,
    ensures
        kid_errors(n, c, k).len() == 0,
    decreases k,
{
    if k > 0 {
        lemma_kid_errors_empty(n, c, k - 1);
    }
}

/// A node without errors has no error of its own and no child with errors.
proof fn lemma_kids_ok(n: SpecNode, c: RecurCtx)
    requires
        recur_errors(n, c).len() == 0,
    ensures
        own_errors(n, c).len() == 0,
        forall|i: int| 0 <= i < n.children.len() ==> recur_errors(#[trigger] n.children[i], child_ctx(n, c, i)).len() == 0,
{
    assert forall|i: int| 0 <= i < n.children.len() implies recur_errors(#[trigger] n.children[i], child_ctx(n, c, i)).len() == 0 by {
        lemma_kid_errors_le(n, c, n.children.len() as int, i);
    }
}

/// A node without any call of `recur` has no `recur` error, whatever the context.
pub proof fn lemma_no_recur_no_errors(n: SpecNode, c: RecurCtx)
    requires
        !mentions_recur(n),
    ensures
        recur_errors(n, c) == Seq::<RecurError>::empty(),
    decreases n,
{
    assert forall|i: int| 0 <= i < n.children.len() implies recur_errors(#[trigger] n.children[i], child_ctx(n, c, i)).len() == 0 by {
        lemma_any_mentions(n.children, i);
        lemma_no_recur_no_errors(n.children[i], child_ctx(n, c, i));
    }
    lemma_kid_errors_empty(n, c, n.children.len() as int);
    if is_arrow_shape(n) {
        lemma_any_mentions(n.children, 1);
        lemma_no_recur_no_call(n.children[1]);
    }
    assert(own_errors(n, c) =~= Seq::<RecurError>::empty());
    assert(recur_errors(n, c) =~= Seq::<RecurError>::empty());
}

proof fn lemma_no_recur_no_call(n: SpecNode)
    requires
        !mentions_recur(n),
    ensures
        !calls_recur(n),
    decreases n,
{
    if n.children.len() > 1 {
        lemma_any_mentions(n.children, 1);
        lemma_no_recur_no_call(n.children[1]);
    }
    if n.children.len() > 2 {
        lemma_any_mentions(n.children, 2);
        lemma_no_recur_no_call(n.children[2]);
    }
    lemma_no_recur_no_call_seq(n.children);
}

proof fn lemma_no_recur_no_call_seq(s: Seq<SpecNode>)
    requires
        !any_mentions_recur(s),
    ensures
        !any_calls_recur(s),
    decreases s,
{
    if s.len() > 0 {
        lemma_no_recur_no_call_seq(s.drop_last());
        lemma_no_recur_no_call(s.last());
    }
}

/// Lowering leaves a node without any call of `recur` as it is.
pub proof fn lemma_lower_without_recur(n: SpecNode)
    requires
        !mentions_recur(n),
    ensures
        lower(n) == n,
    decreases n, 0nat,
{
    if (n.kind == Kind::EFn || n.kind == Kind::SFnDecl) && n.children.len() == 3 {
        lemma_any_mentions(n.children, 0);
        lemma_any_mentions(n.children, 1);
        lemma_any_mentions(n.children, 2);
        lemma_lower_in_fn_without_recur(n.children[1], Seq::empty(), false);
        let ts = param_targets(n.children[1].children);
        let lab = deep_recur(n.children[2], false);
        lemma_lower_in_fn_without_recur(n.children[0], ts, lab);
        lemma_lower_in_fn_without_recur(n.children[2], ts, lab);
        lemma_no_recur_stmt(n.children[1]);
        lemma_no_recur_stmt(n.children[2]);
        assert(seq![n.children[0], n.children[1], n.children[2]] =~= n.children);
    } else if n.kind == Kind::EArrow && n.children.len() == 2 {
        lemma_any_mentions(n.children, 0);
        lemma_any_mentions(n.children, 1);
        lemma_lower_in_fn_without_recur(n.children[0], Seq::empty(), false);
        let ts = param_targets(n.children[0].children);
        let lab = deep_recur(n.children[1], false);
        lemma_lower_in_fn_without_recur(n.children[1], ts, lab);
        lemma_no_recur_stmt(n.children[1]);
        assert(seq![n.children[0], n.children[1]] =~= n.children);
    } else {
        lemma_lower_list_without_recur(n.children);
    }
}

proof fn lemma_lower_list_without_recur(s: Seq<SpecNode>)
    requires
        !any_mentions_recur(s),
    ensures
        lower_list(s) == s,
    decreases s,
{
    if s.len() > 0 {
        lemma_lower_list_without_recur(s.drop_last());
        lemma_lower_without_recur(s.last());
        assert(s.drop_last().push(s.last()) =~= s);
    }
}

proof fn lemma_lower_in_fn_without_recur(n: SpecNode, ts: Seq<SpecNode>, lab: bool)
    requires
        !mentions_recur(n),
    ensures
        lower_in_fn(n, ts, lab) == n,
    decreases n, 1nat,
{
    if n.children.len() > 0 {
        lemma_any_mentions(n.children, 0);
    }
    if is_fn_shape(n) || is_arrow_shape(n) {
        lemma_lower_without_recur(n);
    } else {
        lemma_lower_in_fn_list_without_recur(n.children, ts, lab);
    }
}

proof fn lemma_lower_in_fn_list_without_recur(s: Seq<SpecNode>, ts: Seq<SpecNode>, lab: bool)
    requires
        !any_mentions_recur(s),
    ensures
        lower_in_fn_list(s, ts, lab) == s,
    decreases s,
{
    if s.len() > 0 {
        lemma_lower_in_fn_list_without_recur(s.drop_last(), ts, lab);
        lemma_lower_in_fn_without_recur(s.last(), ts, lab);
        assert(s.drop_last().push(s.last()) =~= s);
    }
}

proof fn lemma_no_recur_stmt(n: SpecNode)
    requires
        !mentions_recur(n),
    ensures
        !has_recur_stmt(n),
    decreases n,
{
    if n.children.len() > 0 {
        lemma_any_mentions(n.children, 0);
    }
    lemma_no_recur_stmt_seq(n.children);
}

proof fn lemma_no_recur_stmt_seq(s: Seq<SpecNode>)
    requires
        !any_mentions_recur(s),
    ensures
        !any_recur_stmt(s),
    decreases s,
{
    if s.len() > 0 {
        lemma_no_recur_stmt_seq(s.drop_last());
        lemma_no_recur_stmt(s.last());
    }
}

proof fn lemma_any_calls_index(s: Seq<SpecNode>)
    ensures
        any_calls_recur(s) ==> exists|i: int| 0 <= i < s.len() && calls_recur(#[trigger] s[i]),
    decreases s.len(),
{
    if s.len() > 0 {
        lemma_any_calls_index(s.drop_last());
        if any_calls_recur(s.drop_last()) {
            let i = choose|i: int| 0 <= i < s.drop_last().len() && calls_recur(#[trigger] s.drop_last()[i]);
            assert(s[i] == s.drop_last()[i]);
        }
    }
}

/// A call of `recur` met inside a `finally` block, or inside a `try` or `catch`
/// whose statement has a `finally` clause, is always reported.
pub proof fn lemma_finally_rejects(n: SpecNode, c: RecurCtx)
    requires
        c.in_finally || c.in_try_with_finally,
        calls_recur(n),
    ensures
        recur_errors(n, c).len() > 0,
    decreases n,
{
    let len = n.children.len() as int;
    if is_recur_call(n) {
        assert(call_errors(n, c).len() > 0);
    } else if n.kind == Kind::EArrow && n.children.len() == 2 {
        lemma_finally_rejects(n.children[1], child_ctx(n, c, 1));
        lemma_kid_errors_le(n, c, len, 1);
    } else if (n.kind == Kind::EFn || n.kind == Kind::SFnDecl) && n.children.len() == 3 {
        lemma_finally_rejects(n.children[2], child_ctx(n, c, 2));
        lemma_kid_errors_le(n, c, len, 2);
    } else {
        lemma_any_calls_index(n.children);
        let i = choose|i: int| 0 <= i < n.children.len() && calls_recur(#[trigger] n.children[i]);
        lemma_finally_rejects(n.children[i], child_ctx(n, c, i));
        lemma_kid_errors_le(n, c, len, i);
    }
}

/// An arrow function whose expression body calls `recur` is always reported.
pub proof fn lemma_arrow_expression_body_rejected(n: SpecNode, c: RecurCtx)
    requires
        n.kind == Kind::EArrow,
        n.children.len() == 2,
        n.children[1].kind != Kind::SBlock,
        calls_recur(n.children[1]),
    ensures
        recur_errors(n, c).contains(RecurError::ArrowExpressionBody(n.span)),
{
    let errs = recur_errors(n, c);
    assert(errs[0] == RecurError::ArrowExpressionBody(n.span));
}

/// Whether no call of `recur` can be accepted in a context: outside every
/// function.
pub open spec fn sealed(c: RecurCtx) -> bool {
    !c.in_function
}

proof fn lemma_child_sealed(n: SpecNode, c: RecurCtx, i: int)
    requires
        sealed(c),
        !is_fn_shape(n),
        !is_arrow_shape(n),
    ensures
        sealed(child_ctx(n, c, i)),
{
}

proof fn lemma_lower_list_index(s: Seq<SpecNode>)
    ensures
        lower_list(s).len() == s.len(),
        forall|i: int| 0 <= i < s.len() ==> #[trigger] lower_list(s)[i] == lower(s[i]),
    decreases s.len(),
{
    if s.len() > 0 {
        lemma_lower_list_index(s.drop_last());
        assert forall|i: int| 0 <= i < s.len() implies #[trigger] lower_list(s)[i] == lower(s[i]) by {
            if i < s.len() - 1 {
                assert(s.drop_last()[i] == s[i]);
            }
        }
    }
}

proof fn lemma_lower_in_fn_list_index(s: Seq<SpecNode>, ts: Seq<SpecNode>, lab: bool)
    ensures
        lower_in_fn_list(s, ts, lab).len() == s.len(),
        forall|i: int| 0 <= i < s.len() ==> #[trigger] lower_in_fn_list(s, ts, lab)[i] == lower_in_fn(s[i], ts, lab),
    decreases s.len(),
{
    if s.len() > 0 {
        lemma_lower_in_fn_list_index(s.drop_last(), ts, lab);
        assert forall|i: int| 0 <= i < s.len() implies #[trigger] lower_in_fn_list(s, ts, lab)[i] == lower_in_fn(s[i], ts, lab) by {
            if i < s.len() - 1 {
                assert(s.drop_last()[i] == s[i]);
            }
        }
    }
}

proof fn lemma_lower_args_index(s: Seq<SpecNode>, ts: Seq<SpecNode>, lab: bool)
    ensures
        lower_args(s, ts, lab).len() == s.len(),
        forall|i: int| 0 <= i < s.len() ==> #[trigger] lower_args(s, ts, lab)[i] == lower_in_fn(arg_expr(s[i]), ts, lab),
    decreases s.len(),
{
    if s.len() > 0 {
        lemma_lower_args_index(s.drop_last(), ts, lab);
        assert forall|i: int| 0 <= i < s.len() implies #[trigger] lower_args(s, ts, lab)[i] == lower_in_fn(arg_expr(s[i]), ts, lab) by {
            if i < s.len() - 1 {
                assert(s.drop_last()[i] == s[i]);
            }
        }
    }
}

proof fn lemma_leaf_clean(n: SpecNode)
    requires
        n.kind != Kind::ECall,
        n.children.len() == 0,
    ensures
        !mentions_recur(n),
{
}

proof fn lemma_pair_clean(kind: Kind, payload: SpecPayload, a: SpecNode, b: SpecNode)
    requires
        kind != Kind::ECall,
        !mentions_recur(a),
        !mentions_recur(b),
    ensures
        !mentions_recur(snode(kind, dummy_span(), payload, seq![a, b])),
{
    lemma_none_mention(seq![a, b]);
}

proof fn lemma_single_clean(kind: Kind, span: Span, payload: SpecPayload, a: SpecNode)
    requires
        kind != Kind::ECall,
        !mentions_recur(a),
    ensures
        !mentions_recur(snode(kind, span, payload, seq![a])),
{
    lemma_none_mention(seq![a]);
}

/// Whether no pattern of a list holds a call of `recur`.
pub open spec fn clean_targets(ts: Seq<SpecNode>) -> bool {
    forall|i: int| 0 <= i < ts.len() ==> !mentions_recur(#[trigger] ts[i])
}

/// The patterns of parameters without a call of `recur` hold none.
proof fn lemma_targets_clean(ps: Seq<SpecNode>)
    requires
        !any_mentions_recur(ps),
    ensures
        clean_targets(param_targets(ps)),
{
    assert forall|i: int| 0 <= i < param_targets(ps).len() implies !mentions_recur(#[trigger] param_targets(ps)[i]) by {
        lemma_any_mentions(ps, i);
        let p = ps[i];
        if (p.kind == Kind::PDefault || p.kind == Kind::PRest) && p.children.len() >= 1 {
            lemma_any_mentions(p.children, 0);
        }
    }
}

/// The block a `recur` statement becomes holds no call of `recur` but those of
/// its argument expressions and parameter patterns.
proof fn lemma_recur_block_clean(inits: Seq<SpecNode>, ts: Seq<SpecNode>, lab: bool)
    requires
        forall|i: int| 0 <= i < inits.len() ==> !mentions_recur(#[trigger] inits[i]),
        clean_targets(ts),
    ensures
        !mentions_recur(recur_block(inits, ts, lab)),
{
    let b = recur_block(inits, ts, lab);
    let n = inits.len() as int;
    let k = if inits.len() < ts.len() { inits.len() as int } else { ts.len() as int };
    lemma_recur_block_order(inits, ts, lab);
    assert forall|j: int| 0 <= j < b.children.len() implies !mentions_recur(#[trigger] b.children[j]) by {
        if j < n {
            let p = sleaf(Kind::PIdent, dummy_span(), SpecPayload::Name(next_name(j as nat)));
            lemma_leaf_clean(p);
            lemma_pair_clean(Kind::Declarator, SpecPayload::Empty, p, inits[j]);
            let d = snode(Kind::Declarator, dummy_span(), SpecPayload::Empty, seq![p, inits[j]]);
            lemma_single_clean(Kind::SVar, dummy_span(), SpecPayload::Var(VarKind::Const), d);
            assert(b.children[j] == const_decl(next_name(j as nat), inits[j]));
        } else if j < n + k {
            let q = j - n;
            let tq = ts[q];
            let v = sleaf(Kind::EIdent, dummy_span(), SpecPayload::Name(next_name(q as nat)));
            lemma_leaf_clean(v);
            assert(!mentions_recur(tq));
            if tq.kind == Kind::PIdent {
                let t = sleaf(Kind::PIdent, dummy_span(), tq.payload);
                lemma_leaf_clean(t);
                lemma_pair_clean(Kind::EAssign, SpecPayload::Empty, t, v);
                let e = snode(Kind::EAssign, dummy_span(), SpecPayload::Empty, seq![t, v]);
                lemma_single_clean(Kind::SExpr, dummy_span(), SpecPayload::Empty, e);
            } else {
                lemma_pair_clean(Kind::EAssign, SpecPayload::Empty, tq, v);
                let e = snode(Kind::EAssign, dummy_span(), SpecPayload::Empty, seq![tq, v]);
                lemma_single_clean(Kind::EParen, dummy_span(), SpecPayload::Empty, e);
                let pe = snode(Kind::EParen, dummy_span(), SpecPayload::Empty, seq![e]);
                lemma_single_clean(Kind::SExpr, dummy_span(), SpecPayload::Empty, pe);
            }
            assert(b.children[n + q] == assign_stmt(ts[q], next_name(q as nat)));
        } else {
            lemma_leaf_clean(b.children[j]);
        }
    }
    lemma_none_mention(b.children);
}

/// Wrapping a body into the function's loop adds no call of `recur`.
proof fn lemma_loop_body_clean(body: SpecNode, lab: bool)
    requires
        !mentions_recur(body),
    ensures
        !mentions_recur(loop_body(body, lab)),
{
    let t = sleaf(Kind::EBool, dummy_span(), SpecPayload::Bool(true));
    let kids = if body.children.len() == 0 || may_complete(body.children[body.children.len() - 1]) {
        body.children.push(bare_return())
    } else {
        body.children
    };
    let inner = snode(Kind::SBlock, dummy_span(), SpecPayload::Empty, kids);
    lemma_leaf_clean(t);
    let a = sleaf(Kind::Absent, dummy_span(), SpecPayload::Empty);
    lemma_leaf_clean(a);
    lemma_single_clean(Kind::SReturn, dummy_span(), SpecPayload::Empty, a);
    assert forall|i: int| 0 <= i < kids.len() implies !mentions_recur(#[trigger] kids[i]) by {
        if i < body.children.len() {
            lemma_any_mentions(body.children, i);
        }
    }
    lemma_none_mention(kids);
    assert(!mentions_recur(inner));
    lemma_pair_clean(Kind::SWhile, SpecPayload::Empty, t, inner);
    let w = snode(Kind::SWhile, dummy_span(), SpecPayload::Empty, seq![t, inner]);
    lemma_single_clean(Kind::SLabeled, dummy_span(), SpecPayload::Name(loop_label()), w);
    let l = snode(Kind::SLabeled, dummy_span(), SpecPayload::Name(loop_label()), seq![w]);
    lemma_single_clean(Kind::SBlock, body.span, body.payload, l);
    lemma_single_clean(Kind::SBlock, body.span, body.payload, w);
}

/// Lowering keeps the kind and payload of a node.
proof fn lemma_lower_head(n: SpecNode)
    ensures
        lower(n).kind == n.kind,
        lower(n).payload == n.payload,
{
}

proof fn lemma_lower_in_fn_head(n: SpecNode, ts: Seq<SpecNode>, lab: bool)
    ensures
        is_ident_named(lower_in_fn(n, ts, lab), "recur"@) ==> is_ident_named(n, "recur"@),
{
    lemma_lower_head(n);
}

/// Lowering a node whose analysis found no error leaves no call of `recur`,
/// where no call could be accepted in its context or where it is a function.
proof fn lemma_lowered_clean(n: SpecNode, c: RecurCtx)
    requires
        recur_errors(n, c).len() == 0,
        sealed(c) || is_fn_shape(n) || is_arrow_shape(n),
    ensures
        !mentions_recur(lower(n)),
    decreases n, 0nat,
{
    lemma_kids_ok(n, c);
    if is_fn_shape(n) {
        lemma_lowered_in_fn_clean(n.children[1], child_ctx(n, c, 1), Seq::empty(), false);
        let pre = lower_in_fn(n.children[1], Seq::empty(), false);
        lemma_none_kids(pre);
        lemma_targets_clean(pre.children);
        let ts = param_targets(pre.children);
        let lab = deep_recur(n.children[2], false);
        lemma_lowered_in_fn_clean(n.children[0], child_ctx(n, c, 0), ts, lab);
        lemma_lowered_in_fn_clean(n.children[2], child_ctx(n, c, 2), ts, lab);
        let body2 = lower_in_fn(n.children[2], ts, lab);
        lemma_loop_body_clean(body2, lab);
        let r = lower(n);
        assert forall|i: int| 0 <= i < r.children.len() implies !mentions_recur(#[trigger] r.children[i]) by {
        }
        lemma_none_mention(r.children);
    } else if is_arrow_shape(n) {
        lemma_lowered_in_fn_clean(n.children[0], child_ctx(n, c, 0), Seq::empty(), false);
        let pre = lower_in_fn(n.children[0], Seq::empty(), false);
        lemma_none_kids(pre);
        lemma_targets_clean(pre.children);
        let ts = param_targets(pre.children);
        let lab = deep_recur(n.children[1], false);
        if n.children[1].kind != Kind::SBlock {
            assert(!calls_recur(n.children[1]));
        }
        lemma_lowered_in_fn_clean(n.children[1], child_ctx(n, c, 1), ts, lab);
        let body2 = lower_in_fn(n.children[1], ts, lab);
        lemma_loop_body_clean(body2, lab);
        let r = lower(n);
        assert forall|i: int| 0 <= i < r.children.len() implies !mentions_recur(#[trigger] r.children[i]) by {
        }
        lemma_none_mention(r.children);
    } else {
        let r = lower(n);
        lemma_lower_list_index(n.children);
        assert forall|i: int| 0 <= i < n.children.len() implies !mentions_recur(#[trigger] r.children[i]) by {
            if sealed(c) {
                lemma_child_sealed(n, c, i);
            }
            lemma_lowered_clean(n.children[i], child_ctx(n, c, i));
        }
        lemma_none_mention(r.children);
        if n.children.len() > 0 {
            lemma_lower_head(n.children[0]);
        }
        if is_recur_call(n) {
            assert(call_errors(n, c).len() > 0);
        }
    }
}

/// A node without a call of `recur` has children without one.
proof fn lemma_none_kids(n: SpecNode)
    requires
        !mentions_recur(n),
    ensures
        !any_mentions_recur(n.children),
{
    if n.children.len() > 0 {
        lemma_any_mentions(n.children, 0);
    }
}

/// Lowering, inside a function, a node whose analysis found no error leaves no
/// call of `recur`.
proof fn lemma_lowered_in_fn_clean(n: SpecNode, c: RecurCtx, ts: Seq<SpecNode>, lab: bool)
    requires
        recur_errors(n, c).len() == 0,
        c.in_function,
        c.direct ==> !is_recur_call(n),
        clean_targets(ts),
    ensures
        !mentions_recur(lower_in_fn(n, ts, lab)),
    decreases n, 1nat,
{
    lemma_kids_ok(n, c);
    if is_recur_stmt(n) {
        let call = n.children[0];
        let cc = child_ctx(n, c, 0);
        lemma_kids_ok(call, cc);
        if call.children.len() > 1 && call.children[1].kind == Kind::Args {
            let args = call.children[1];
            let ca = child_ctx(call, cc, 1);
            lemma_kids_ok(args, ca);
            let s = args.children;
            lemma_lower_args_index(s, ts, lab);
            assert forall|j: int| 0 <= j < s.len() implies !mentions_recur(#[trigger] lower_args(s, ts, lab)[j]) by {
                let a = s[j];
                let ctx = child_ctx(args, ca, j);
                if a.kind == Kind::Arg && a.children.len() > 0 {
                    lemma_kids_ok(a, ctx);
                    lemma_lowered_in_fn_clean(a.children[0], child_ctx(a, ctx, 0), ts, lab);
                } else {
                    lemma_lowered_in_fn_clean(a, ctx, ts, lab);
                }
            }
            lemma_recur_block_clean(lower_args(s, ts, lab), ts, lab);
        } else {
            lemma_recur_block_clean(Seq::empty(), ts, lab);
        }
    } else if is_fn_shape(n) || is_arrow_shape(n) {
        lemma_lowered_clean(n, c);
    } else {
        let r = lower_in_fn(n, ts, lab);
        lemma_lower_in_fn_list_index(n.children, ts, lab);
        assert forall|i: int| 0 <= i < n.children.len() implies !mentions_recur(#[trigger] r.children[i]) by {
            lemma_lowered_in_fn_clean(n.children[i], child_ctx(n, c, i), ts, lab);
        }
        lemma_none_mention(r.children);
        if n.children.len() > 0 {
            lemma_lower_in_fn_head(n.children[0], ts, lab);
        }
        if is_recur_call(n) {
            assert(call_errors(n, c).len() > 0);
        }
    }
}

/// Lowering a module whose `recur` calls are all accepted leaves no call of
/// `recur` in it: each accepted call stands as the expression of a `return` or
/// of an expression statement of its own function, and becomes a jump of that
/// function's loop.
pub proof fn lemma_accepted_recur_lowered(m: SpecNode)
    requires
        recur_errors(m, top_ctx()).len() == 0,
    ensures
        !mentions_recur(lower(m)),
{
    lemma_lowered_clean(m, top_ctx());
}

/// Lowering `recur` is collision-safe: every argument is evaluated into a
/// temporary of its own before any parameter is reassigned, each parameter is
/// then assigned from the temporary of its position, and the function's loop
/// continues.
pub proof fn lemma_recur_block_order(inits: Seq<SpecNode>, targets: Seq<SpecNode>, labeled: bool)
    ensures
        ({
            let b = recur_block(inits, targets, labeled);
            let n = inits.len() as int;
            let k = if inits.len() < targets.len() { inits.len() as int } else { targets.len() as int };
            &&& b.kind == Kind::SBlock
            &&& b.children.len() == n + k + 1
            &&& forall|i: int| 0 <= i < n ==> #[trigger] b.children[i] == const_decl(next_name(i as nat), inits[i])
            &&& forall|i: int| 0 <= i < k ==> #[trigger] b.children[n + i] == assign_stmt(targets[i], next_name(i as nat))
            &&& b.children[n + k] == continue_loop(labeled)
        }),
{
    let b = recur_block(inits, targets, labeled);
    let n = inits.len() as int;
    let k = if inits.len() < targets.len() { inits.len() as int } else { targets.len() as int };
    assert forall|i: int| 0 <= i < k implies #[trigger] b.children[n + i] == assign_stmt(targets[i], next_name(i as nat)) by {
        assert(b.children[n + i] == Seq::new(k as nat, |q: int| assign_stmt(targets[q], next_name(q as nat)))[i]);
    }
}

/// Whether every call of `recur` in a node stands in a function and has as
/// many arguments as that function (its innermost one) has parameters;
/// `params` is the parameter count of the function around the node, `None`
/// outside every function.
pub open spec fn recur_arities_match(n: SpecNode, params: Option<nat>) -> bool
    decreases n, 1nat,
{
    (is_recur_call(n) ==> params == Some(arg_count(n)))
        && all_arities_match(n.children, if is_fn_shape(n) || is_arrow_shape(n) {
            Some(param_count(n) as nat)
        } else {
            params
        })
}

pub open spec fn all_arities_match(s: Seq<SpecNode>, params: Option<nat>) -> bool
    decreases s, 0nat,
{
    s.len() == 0 || (all_arities_match(s.drop_last(), params) && recur_arities_match(s.last(), params))
}

proof fn lemma_all_arities_match(s: Seq<SpecNode>, params: Option<nat>)
    requires
        forall|i: int| 0 <= i < s.len() ==> recur_arities_match(#[trigger] s[i], params),
    ensures
        all_arities_match(s, params),
    decreases s.len(),
{
    if s.len() > 0 {
        assert forall|i: int| 0 <= i < s.drop_last().len() implies recur_arities_match(#[trigger] s.drop_last()[i], params) by {
            assert(s.drop_last()[i] == s[i]);
        }
        lemma_all_arities_match(s.drop_last(), params);
        assert(recur_arities_match(s[s.len() - 1], params));
    }
}

/// The parameter count a context gives its `recur` calls.
pub open spec fn ctx_params(c: RecurCtx) -> Option<nat> {
    if c.in_function { Some(c.params as nat) } else { None }
}

/// The analysis accepts a `recur` call only inside a function and with as
/// many arguments as that function has parameters: where it reports no
/// error, every call of `recur` matches its function's arity.
pub proof fn lemma_accepted_recur_arities(n: SpecNode, c: RecurCtx)
    requires
        recur_errors(n, c).len() == 0,
    ensures
        recur_arities_match(n, ctx_params(c)),
    decreases n,
{
    lemma_kids_ok(n, c);
    if is_recur_call(n) {
        assert(own_errors(n, c) == call_errors(n, c));
    }
    let p = if is_fn_shape(n) || is_arrow_shape(n) { Some(param_count(n) as nat) } else { ctx_params(c) };
    assert forall|i: int| 0 <= i < n.children.len() implies recur_arities_match(#[trigger] n.children[i], p) by {
        lemma_accepted_recur_arities(n.children[i], child_ctx(n, c, i));
        assert(ctx_params(child_ctx(n, c, i)) == p);
    }
    lemma_all_arities_match(n.children, p);
}

proof fn lemma_kid_errors_contains(n: SpecNode, c: RecurCtx, k: int, i: int, e: RecurError)
    requires
        0 <= i < k <= n.children.len(),
        recur_errors(n.children[i], child_ctx(n, c, i)).contains(e),
    ensures
        kid_errors(n, c, k).contains(e),
    decreases k,
{
    let prev = kid_errors(n, c, k - 1);
    let last = recur_errors(n.children[k - 1], child_ctx(n, c, k - 1));
    if i < k - 1 {
        lemma_kid_errors_contains(n, c, k - 1, i, e);
        let j = choose|j: int| 0 <= j < prev.len() && prev[j] == e;
        assert((prev + last)[j] == e);
    } else {
        let j = choose|j: int| 0 <= j < last.len() && last[j] == e;
        assert((prev + last)[prev.len() + j] == e);
    }
}

/// An error met in a child is reported for the node.
proof fn lemma_child_error_reported(n: SpecNode, c: RecurCtx, i: int, e: RecurError)
    requires
        0 <= i < n.children.len(),
        recur_errors(n.children[i], child_ctx(n, c, i)).contains(e),
    ensures
        recur_errors(n, c).contains(e),
{
    lemma_kid_errors_contains(n, c, n.children.len() as int, i, e);
    let own = own_errors(n, c);
    let kids = kid_errors(n, c, n.children.len() as int);
    let j = choose|j: int| 0 <= j < kids.len() && kids[j] == e;
    assert((own + kids)[own.len() + j] == e);
}

/// A call of `recur` inside a function is in tail position only as the whole
/// expression of a `return` or of an expression statement: one that is an
/// operand, an argument, a test, or any other part of a larger construct
/// is reported.
pub proof fn lemma_recur_operand_rejected(n: SpecNode, c: RecurCtx, i: int)
    requires
        c.in_function,
        n.kind != Kind::SReturn,
        n.kind != Kind::SExpr,
        !is_arrow_shape(n),
        0 <= i < n.children.len(),
        is_recur_call(n.children[i]),
    ensures
        recur_errors(n, c).contains(RecurError::NotInTailPosition(n.children[i].children[0].span)),
{
    let k = n.children[i];
    let ck = child_ctx(n, c, i);
    let e = RecurError::NotInTailPosition(k.children[0].span);
    assert(ck.in_function && !ck.direct);
    let ce = call_errors(k, ck);
    assert(ce[0] == e);
    assert(own_errors(k, ck) == ce);
    assert(recur_errors(k, ck)[0] == e);
    lemma_child_error_reported(n, c, i, e);
}

/// A `recur(..);` statement is in tail position only as the last statement of
/// its block: one that other statements follow is reported.
pub proof fn lemma_recur_statement_before_others_rejected(n: SpecNode, c: RecurCtx, i: int)
    requires
        c.in_function,
        n.kind == Kind::SBlock,
        0 <= i < n.children.len() - 1,
        n.children[i].kind == Kind::SExpr,
        n.children[i].children.len() > 0,
        is_recur_call(n.children[i].children[0]),
    ensures
        recur_errors(n, c).contains(RecurError::NotInTailPosition(n.children[i].children[0].children[0].span)),
{
    let st = n.children[i];
    let cs = child_ctx(n, c, i);
    assert(!cs.tail);
    let k = st.children[0];
    let ck = child_ctx(st, cs, 0);
    let e = RecurError::NotInTailPosition(k.children[0].span);
    assert(ck.in_function && !ck.tail);
    let ce = call_errors(k, ck);
    assert(ce[0] == e);
    assert(own_errors(k, ck) == ce);
    assert(recur_errors(k, ck)[0] == e);
    lemma_child_error_reported(st, cs, 0, e);
    lemma_child_error_reported(n, c, i, e);
}

/// Each argument of a lowered `recur` gets a temporary of its own: the
/// temporaries of two positions have different names.
pub proof fn lemma_temporaries_distinct(i: nat, j: nat)
    ensures
        next_name(i) == next_name(j) ==> i == j,
{
    if next_name(i) == next_name(j) {
        reveal_strlit("__next");
        let p = "__next"@;
        assert(next_name(i).skip(p.len() as int) =~= decimal(i));
        assert(next_name(j).skip(p.len() as int) =~= decimal(j));
        lemma_decimal_digits(i);
        lemma_decimal_digits(j);
    }
}

} // verus!
