//! The syntax tree the library works on: an ESTree-like tree of JavaScript
//! nodes, each a kind, a source span, a kind-specific payload and its children
//! in source order, and its mathematical view.
use vstd::prelude::*;

verus! {

/// A byte range of the source text; `lo == hi == 0` marks a generated node.
#[derive(Clone, Copy, Debug, PartialEq, Eq, Structural)]
pub struct Span {
    pub lo: u32,
    pub hi: u32,
}

pub open spec fn dummy_span() -> Span {
    Span { lo: 0, hi: 0 }
}

/// The span given to generated nodes.
pub fn dummy() -> (s: Span)
    ensures
        s == dummy_span(),
{
    Span { lo: 0, hi: 0 }
}

/// The kind of a node, and with it the meaning of its children.
#[derive(Clone, Copy, Debug, PartialEq, Eq, Structural)]
pub enum Kind {
    /// A whole module; children: its items.
    Module,
    /// An identifier that is neither an expression nor a binding pattern
    /// (a declared function's name, a label, a shorthand property); payload `Name`.
    Ident,
    /// An identifier expression; payload `Name`.
    EIdent,
    /// A numeric literal; payload `Number`.
    ENum,
    /// A string literal; payload `Str`.
    EStr,
    /// A boolean literal; payload `Bool`.
    EBool,
    /// The literal `null`.
    ENull,
    /// An array literal; children: `Hole` or `Arg` elements.
    EArray,
    /// An object literal; children: `KeyValue` or `Other` properties.
    EObject,
    /// An arrow function; payload `Func`; children: `Params`, then the body
    /// (an `SBlock`, or an expression).
    EArrow,
    /// A function expression; payload `Func`; children: the name (`Ident` or
    /// `Absent`), `Params`, the body (`SBlock` or `Absent`).
    EFn,
    /// A binary expression; payload `Binary`; children: left, right.
    EBin,
    /// A unary expression; payload `Unary`; children: the operand.
    EUnary,
    /// A call; children: the callee (an expression, or `Other` for `super`/`import`), `Args`.
    ECall,
    /// A member access; children: the object, the property (`PropName`, `Computed` or `Other`).
    EMember,
    /// A parenthesized expression; children: the inner expression.
    EParen,
    /// A plain assignment `name = value`; children: the target (`PIdent`), the value.
    EAssign,
    /// A missing optional child.
    Absent,
    /// A hole in an array literal.
    Hole,
    /// An argument or array element; payload `Spread` when spread; children: the expression.
    Arg,
    /// A `key: value` property; children: the key (`PropName`, `Computed` or `Other`), the value.
    KeyValue,
    /// A property name written as an identifier; payload `Name`.
    PropName,
    /// A computed property name `[e]`; children: the expression.
    Computed,
    /// A binding identifier pattern; payload `Name`.
    PIdent,
    /// A pattern with a default value; children: the pattern, the default expression.
    PDefault,
    /// A rest pattern `...p`; children: the pattern.
    PRest,
    /// A parameter list; children: patterns.
    Params,
    /// An argument list; children: `Arg` nodes.
    Args,
    /// A variable declarator; children: the pattern, the initializer (or `Absent`).
    Declarator,
    /// An expression statement; children: the expression.
    SExpr,
    /// A block; children: its statements.
    SBlock,
    /// `if`; children: test, consequent, alternate (or `Absent`).
    SIf,
    /// `return`; children: the argument (or `Absent`).
    SReturn,
    /// `try`; children: the block, the handler (`Catch` or `Absent`), the finalizer (`SBlock` or `Absent`).
    STry,
    /// A catch clause; children: the parameter (or `Absent`), the body (`SBlock`).
    Catch,
    /// `while`; children: test, body.
    SWhile,
    /// `continue`; payload `Name` for the loop's label, `Empty` for none.
    SContinue,
    /// A labeled statement; payload `Name`; children: the statement.
    SLabeled,
    /// `throw`; children: the thrown expression.
    SThrow,
    /// A variable declaration; payload `Var`; children: `Declarator` nodes.
    SVar,
    /// A function declaration; payload `Func`; children: the name (`Ident`), `Params`, the body (`SBlock` or `Absent`).
    SFnDecl,
    /// An import declaration; payload `Import`.
    Import,
    /// `export` of a declaration; children: the declaration.
    ExportDecl,
    /// Another module-level declaration (`export default`, `export { .. }`, ..),
    /// kept opaque; payload `Handle`; children as for `Other`.
    ModuleDecl,
    /// `super` or `import` standing as a callee; payload `Handle`.
    Super,
    /// A statement list that is not a block (the body of a `case`).
    StmtList,
    /// Any other construct, kept opaque; payload `Handle`; children: its
    /// identifiers, expressions, statements, blocks and lists, in source order.
    Other,
}

#[derive(Clone, Copy, Debug, PartialEq, Eq, Structural)]
pub enum BinaryOp {
    EqEq, NotEq, EqEqEq, NotEqEq, Lt, LtEq, Gt, GtEq, LShift, RShift, ZeroFillRShift,
    Add, Sub, Mul, Div, Mod, BitOr, BitXor, BitAnd, LogicalOr, LogicalAnd, In, InstanceOf,
    Exp, NullishCoalescing,
}

#[derive(Clone, Copy, Debug, PartialEq, Eq, Structural)]
pub enum UnaryOp {
    Minus, Plus, Bang, Tilde, TypeOf, Void, Delete,
}

#[derive(Clone, Copy, Debug, PartialEq, Eq, Structural)]
pub enum VarKind {
    Var, Let, Const,
}

#[derive(Clone, Copy, Debug, PartialEq, Eq, Structural)]
pub enum ImportKind {
    Named, Default, Namespace,
}

/// A number: the bits of its IEEE double and its shortest decimal rendering.
pub struct JsNumber {
    pub bits: u64,
    pub text: String,
}

/// One specifier of an import declaration.
pub struct ImportSpec {
    pub kind: ImportKind,
    pub local: String,
    /// The exported name, when it differs from the local one.
    pub imported: Option<String>,
}

/// An import declaration. `handle` names the parsed declaration it stands for (0 for a generated one).
pub struct ImportDecl {
    pub handle: u64,
    pub specifiers: Vec<ImportSpec>,
    pub src: String,
    pub src_raw: Option<String>,
}

pub enum Payload {
    Empty,
    Name(String),
    Number(JsNumber, Option<String>),
    Str(String, Option<String>),
    Bool(bool),
    Binary(BinaryOp),
    Unary(UnaryOp),
    /// A function: whether it is `async`, whether it is a generator, and a
    /// text that describes the function as written (empty for one that was
    /// not written in the source).
    Func { is_async: bool, is_generator: bool, text: String },
    Var(VarKind),
    Spread(Span),
    Import(ImportDecl),
    /// The handle of a construct kept opaque, and a text that describes it.
    Handle(u64, String),
    /// A text that describes a construct as written, for a node whose kind
    /// carries nothing else.
    Text(String),
}

/// A node of the tree.
pub struct Node {
    pub kind: Kind,
    pub span: Span,
    pub payload: Payload,
    pub children: Vec<Node>,
}

pub struct SpecNumber {
    pub bits: u64,
    pub text: Seq<char>,
}

pub struct SpecImportSpec {
    pub kind: ImportKind,
    pub local: Seq<char>,
    pub imported: Option<Seq<char>>,
}

pub struct SpecImport {
    pub handle: u64,
    pub specifiers: Seq<SpecImportSpec>,
    pub src: Seq<char>,
    pub src_raw: Option<Seq<char>>,
}

pub enum SpecPayload {
    Empty,
    Name(Seq<char>),
    Number(SpecNumber, Option<Seq<char>>),
    Str(Seq<char>, Option<Seq<char>>),
    Bool(bool),
    Binary(BinaryOp),
    Unary(UnaryOp),
    Func { is_async: bool, is_generator: bool, text: Seq<char> },
    Var(VarKind),
    Spread(Span),
    Import(SpecImport),
    Handle(u64, Seq<char>),
    Text(Seq<char>),
}

/// The mathematical value of a node.
pub struct SpecNode {
    pub kind: Kind,
    pub span: Span,
    pub payload: SpecPayload,
    pub children: Seq<SpecNode>,
}

pub open spec fn opt_text(o: Option<String>) -> Option<Seq<char>> {
    match o {
        Some(s) => Some(s@),
        None => None,
    }
}

impl View for JsNumber {
    type V = SpecNumber;

    open spec fn view(&self) -> SpecNumber {
        SpecNumber { bits: self.bits, text: self.text@ }
    }
}

impl View for ImportSpec {
    type V = SpecImportSpec;

    open spec fn view(&self) -> SpecImportSpec {
        SpecImportSpec { kind: self.kind, local: self.local@, imported: opt_text(self.imported) }
    }
}

impl View for ImportDecl {
    type V = SpecImport;

    open spec fn view(&self) -> SpecImport {
        SpecImport {
            handle: self.handle,
            specifiers: self.specifiers@.map_values(|s: ImportSpec| s@),
            src: self.src@,
            src_raw: opt_text(self.src_raw),
        }
    }
}

impl View for Payload {
    type V = SpecPayload;

    open spec fn view(&self) -> SpecPayload {
        match self {
            Payload::Empty => SpecPayload::Empty,
            Payload::Name(s) => SpecPayload::Name(s@),
            Payload::Number(n, raw) => SpecPayload::Number(n@, opt_text(*raw)),
            Payload::Str(s, raw) => SpecPayload::Str(s@, opt_text(*raw)),
            Payload::Bool(b) => SpecPayload::Bool(*b),
            Payload::Binary(op) => SpecPayload::Binary(*op),
            Payload::Unary(op) => SpecPayload::Unary(*op),
            Payload::Func { is_async, is_generator, text } => SpecPayload::Func {
                is_async: *is_async,
                is_generator: *is_generator,
                text: text@,
            },
            Payload::Var(k) => SpecPayload::Var(*k),
            Payload::Spread(s) => SpecPayload::Spread(*s),
            Payload::Import(d) => SpecPayload::Import(d@),
            Payload::Handle(h, d) => SpecPayload::Handle(*h, d@),
            Payload::Text(d) => SpecPayload::Text(d@),
        }
    }
}

pub open spec fn view_node(n: Node) -> SpecNode
    decreases n,
{
    SpecNode { kind: n.kind, span: n.span, payload: n.payload@, children: view_nodes(n.children@) }
}

pub open spec fn view_nodes(s: Seq<Node>) -> Seq<SpecNode>
    decreases s,
{
    if s.len() == 0 {
        Seq::empty()
    } else {
        view_nodes(s.drop_last()).push(view_node(s.last()))
    }
}

impl View for Node {
    type V = SpecNode;

    open spec fn view(&self) -> SpecNode {
        view_node(*self)
    }
}

/// The view of a vector of nodes.
pub open spec fn nodes_view(v: Vec<Node>) -> Seq<SpecNode> {
    view_nodes(v@)
}

pub proof fn lemma_view_nodes(s: Seq<Node>)
    ensures
        view_nodes(s).len() == s.len(),
        forall|i: int| 0 <= i < s.len() ==> #[trigger] view_nodes(s)[i] == view_node(s[i]),
    decreases s.len(),
{
    if s.len() > 0 {
        lemma_view_nodes(s.drop_last());
    }
}

pub proof fn lemma_view_nodes_push(s: Seq<Node>, n: Node)
    ensures
        view_nodes(s.push(n)) == view_nodes(s).push(view_node(n)),
{
    assert(s.push(n).drop_last() =~= s);
}

/// Node constructors, as the tree's mathematical values.
pub open spec fn snode(kind: Kind, span: Span, payload: SpecPayload, children: Seq<SpecNode>) -> SpecNode {
    SpecNode { kind, span, payload, children }
}

pub open spec fn sleaf(kind: Kind, span: Span, payload: SpecPayload) -> SpecNode {
    snode(kind, span, payload, Seq::empty())
}

/// Whether a node is an identifier expression with the given name.
pub open spec fn is_ident_named(n: SpecNode, name: Seq<char>) -> bool {
    n.kind == Kind::EIdent && n.payload == SpecPayload::Name(name)
}

/// The `i`-th child, or an `Absent` node when there is none.
pub open spec fn child(n: SpecNode, i: int) -> SpecNode {
    if 0 <= i < n.children.len() {
        n.children[i]
    } else {
        sleaf(Kind::Absent, dummy_span(), SpecPayload::Empty)
    }
}

/// A node with payload `None` and no children.
pub fn leaf(kind: Kind, span: Span) -> (n: Node)
    ensures
        n@ == sleaf(kind, span, SpecPayload::Empty),
{
    let n = Node { kind, span, payload: Payload::Empty, children: Vec::new() };
    assert(n@.children =~= Seq::<SpecNode>::empty());
    n
}

/// A node with the given payload and children.
pub fn make(kind: Kind, span: Span, payload: Payload, children: Vec<Node>) -> (n: Node)
    ensures
        n@ == snode(kind, span, payload@, nodes_view(children)),
{
    Node { kind, span, payload, children }
}

/// A vector of one node.
pub fn one(a: Node) -> (v: Vec<Node>)
    ensures
        nodes_view(v) == seq![a@],
{
    let mut v = Vec::new();
    v.push(a);
    proof {
        lemma_view_nodes_push(Seq::empty(), a);
        assert(Seq::<Node>::empty().push(a) =~= v@);
        assert(view_nodes(Seq::<Node>::empty()) =~= Seq::<SpecNode>::empty());
        assert(seq![a@] =~= Seq::<SpecNode>::empty().push(a@));
    }
    v
}

/// A vector of two nodes.
pub fn two(a: Node, b: Node) -> (v: Vec<Node>)
    ensures
        nodes_view(v) == seq![a@, b@],
{
    let mut v = one(a);
    proof {
        lemma_view_nodes_push(v@, b);
    }
    v.push(b);
    assert(seq![a@, b@] =~= seq![a@].push(b@));
    v
}

/// A vector of three nodes.
pub fn three(a: Node, b: Node, c: Node) -> (v: Vec<Node>)
    ensures
        nodes_view(v) == seq![a@, b@, c@],
{
    let mut v = two(a, b);
    proof {
        lemma_view_nodes_push(v@, c);
    }
    v.push(c);
    assert(seq![a@, b@, c@] =~= seq![a@, b@].push(c@));
    v
}

/// Appends a node to a vector, with the view of the result.
pub fn push_node(v: &mut Vec<Node>, n: Node)
    ensures
        nodes_view(*final(v)) == nodes_view(*old(v)).push(n@),
{
    proof {
        lemma_view_nodes_push(v@, n);
    }
    v.push(n);
}

/// Clones a string.
pub fn copy_text(s: &String) -> (r: String)
    ensures
        r@ == s@,
{
    s.clone()
}

pub fn copy_opt_text(o: &Option<String>) -> (r: Option<String>)
    ensures
        opt_text(r) == opt_text(*o),
{
    match o {
        Some(s) => Some(s.clone()),
        None => None,
    }
}

/// A copy of an import declaration.
pub fn copy_import(d: &ImportDecl) -> (r: ImportDecl)
    ensures
        r@ == d@,
{
    let mut specs: Vec<ImportSpec> = Vec::new();
    let mut i: usize = 0;
    while i < d.specifiers.len()
        invariant
            i <= d.specifiers.len(),
            specs.len() == i,
            forall|j: int| 0 <= j < i ==> #[trigger] specs@[j]@ == d.specifiers@[j]@,
        decreases d.specifiers.len() - i,
    {
        let s = &d.specifiers[i];
        specs.push(ImportSpec { kind: s.kind, local: s.local.clone(), imported: copy_opt_text(&s.imported) });
        i = i + 1;
    }
    assert(specs@.map_values(|s: ImportSpec| s@) =~= d.specifiers@.map_values(|s: ImportSpec| s@));
    ImportDecl {
        handle: d.handle,
        specifiers: specs,
        src: d.src.clone(),
        src_raw: copy_opt_text(&d.src_raw),
    }
}

/// A copy of a payload.
pub fn copy_payload(p: &Payload) -> (r: Payload)
    ensures
        r@ == p@,
{
    match p {
        Payload::Empty => Payload::Empty,
        Payload::Name(s) => Payload::Name(s.clone()),
        Payload::Number(n, raw) => Payload::Number(
            JsNumber { bits: n.bits, text: n.text.clone() },
            copy_opt_text(raw),
        ),
        Payload::Str(s, raw) => Payload::Str(s.clone(), copy_opt_text(raw)),
        Payload::Bool(b) => Payload::Bool(*b),
        Payload::Binary(op) => Payload::Binary(*op),
        Payload::Unary(op) => Payload::Unary(*op),
        Payload::Func { is_async, is_generator, text } => Payload::Func {
            is_async: *is_async,
            is_generator: *is_generator,
            text: text.clone(),
        },
        Payload::Var(k) => Payload::Var(*k),
        Payload::Spread(s) => Payload::Spread(*s),
        Payload::Import(d) => Payload::Import(copy_import(d)),
        Payload::Handle(h, d) => Payload::Handle(*h, d.clone()),
        Payload::Text(d) => Payload::Text(d.clone()),
    }
}

/// A deep copy of a node.
pub fn copy_node(n: &Node) -> (r: Node)
    ensures
        r@ == n@,
    decreases n,
{
    let children = copy_nodes(&n.children);
    Node { kind: n.kind, span: n.span, payload: copy_payload(&n.payload), children }
}

/// A deep copy of a vector of nodes.
pub fn copy_nodes(v: &Vec<Node>) -> (r: Vec<Node>)
    ensures
        nodes_view(r) == nodes_view(*v),
    decreases v,
{
    let mut r: Vec<Node> = Vec::new();
    let mut i: usize = 0;
    proof {
        lemma_view_nodes(v@);
    }
    while i < v.len()
        invariant
            i <= v.len(),
            view_nodes(v@).len() == v.len(),
            forall|j: int| 0 <= j < v.len() ==> #[trigger] view_nodes(v@)[j] == view_node(v@[j]),
            nodes_view(r) == view_nodes(v@).take(i as int),
        decreases v.len() - i,
    {
        let c = copy_node(&v[i]);
        push_node(&mut r, c);
        assert(view_nodes(v@).take(i + 1) =~= view_nodes(v@).take(i as int).push(view_node(v@[i as int])));
        i = i + 1;
    }
    assert(view_nodes(v@).take(v.len() as int) =~= view_nodes(v@));
    r
}

} // verus!
