//! Macro expansion: the macro bindings a module imports, and the outside-in,
//! fixed-point expansion of macro calls.
//!
//! Macro code runs in a compile-time sandbox that this library does not hold.
//! Expansion is therefore a function of the module and of the replies the
//! sandbox gave, in order, to the requests expansion made of it: calls of a
//! macro, and parses of a syntax template. Given too few replies, expansion
//! stops at the first request that has none.
use vstd::prelude::*;
use crate::ast::{
    Kind, Node, Payload, SpecNode, SpecPayload, Span, SpecImport, SpecImportSpec, ImportKind, snode, child,
    nodes_view, view_node, lemma_view_nodes, make, push_node, copy_node, copy_payload,
};
use crate::json::{JsonValue, SpecJson, jget, jget_str, jas_array, get, get_str, jsons_view, copy_json, copy_jsons};
use crate::marshal::{
    Conv, FromJson, from_json, node_from_json, name_of, to_json, ToJson, node_to_json, json_arrow, json_binary,
    json_unary, json_member, json_call, json_var_decl,
};
use crate::template::{template_text, resolve_template_spec, resolve_template, template_source};
use crate::text::{has_suffix, ends_with, same_text};

verus! {

/// The number of passes expansion may take to reach its fixed point.
pub const MAX_EXPANSION_DEPTH: usize = 256;

/// How deep macro replacements may nest inside one another within a pass
/// (`maxExpansionDepth`): the budget a driver hands to `expand_macros`.
pub const MAX_NESTED_EXPANSIONS: usize = 256;

// ---------------------------------------------------------------------------
// Macro bindings

/// `import { name as local } from "path"` from a macro module.
pub struct MacroBinding {
    pub local: String,
    pub path: String,
    pub name: String,
}

/// `import * as local from "path"` from a macro module.
pub struct NamespaceBinding {
    pub local: String,
    pub path: String,
}

/// Whether a module path names a macro module.
pub open spec fn is_macro_source(src: Seq<char>) -> bool {
    has_suffix(src, ".macro.js"@)
}

/// The declaration of an import item.
pub open spec fn import_of(n: SpecNode) -> Option<SpecImport> {
    if n.kind == Kind::Import {
        match n.payload {
            SpecPayload::Import(d) => Some(d),
            _ => None,
        }
    } else {
        None
    }
}

/// Whether a module item imports from a macro module.
pub open spec fn is_macro_import(n: SpecNode) -> bool {
    match import_of(n) {
        Some(d) => is_macro_source(d.src),
        None => false,
    }
}

/// The named bindings of import specifiers: local name, module path, exported name.
pub open spec fn named_bindings(specs: Seq<SpecImportSpec>, src: Seq<char>) -> Seq<(Seq<char>, Seq<char>, Seq<char>)>
    decreases specs.len(),
{
    if specs.len() == 0 {
        Seq::empty()
    } else {
        let s = specs.last();
        named_bindings(specs.drop_last(), src) + if s.kind == ImportKind::Named {
            seq![(s.local, src, match s.imported { Some(i) => i, None => s.local })]
        } else {
            Seq::empty()
        }
    }
}

/// The namespace bindings of import specifiers: local name, module path.
pub open spec fn star_bindings(specs: Seq<SpecImportSpec>, src: Seq<char>) -> Seq<(Seq<char>, Seq<char>)>
    decreases specs.len(),
{
    if specs.len() == 0 {
        Seq::empty()
    } else {
        let s = specs.last();
        star_bindings(specs.drop_last(), src) + if s.kind == ImportKind::Namespace {
            seq![(s.local, src)]
        } else {
            Seq::empty()
        }
    }
}

/// The named macro bindings of a module's items, in source order.
pub open spec fn macro_bindings(items: Seq<SpecNode>) -> Seq<(Seq<char>, Seq<char>, Seq<char>)>
    decreases items.len(),
{
    if items.len() == 0 {
        Seq::empty()
    } else {
        macro_bindings(items.drop_last()) + match import_of(items.last()) {
            Some(d) => if is_macro_source(d.src) { named_bindings(d.specifiers, d.src) } else { Seq::empty() },
            None => Seq::empty(),
        }
    }
}

/// The namespace macro bindings of a module's items, in source order.
pub open spec fn namespace_bindings(items: Seq<SpecNode>) -> Seq<(Seq<char>, Seq<char>)>
    decreases items.len(),
{
    if items.len() == 0 {
        Seq::empty()
    } else {
        namespace_bindings(items.drop_last()) + match import_of(items.last()) {
            Some(d) => if is_macro_source(d.src) { star_bindings(d.specifiers, d.src) } else { Seq::empty() },
            None => Seq::empty(),
        }
    }
}

/// What a local name is bound to as a macro: the last binding of that name wins.
pub open spec fn lookup_macro(bs: Seq<(Seq<char>, Seq<char>, Seq<char>)>, x: Seq<char>) -> Option<(Seq<char>, Seq<char>)>
    decreases bs.len(),
{
    if bs.len() == 0 {
        None
    } else if bs.last().0 == x {
        Some((bs.last().1, bs.last().2))
    } else {
        lookup_macro(bs.drop_last(), x)
    }
}

/// The macro module a namespace name is bound to: the last binding wins.
pub open spec fn lookup_namespace(bs: Seq<(Seq<char>, Seq<char>)>, x: Seq<char>) -> Option<Seq<char>>
    decreases bs.len(),
{
    if bs.len() == 0 {
        None
    } else if bs.last().0 == x {
        Some(bs.last().1)
    } else {
        lookup_namespace(bs.drop_last(), x)
    }
}

/// The macro bindings a module imports.
pub struct MacroImportFinder {
    pub macro_imports: Vec<MacroBinding>,
    pub namespace_imports: Vec<NamespaceBinding>,
}

pub open spec fn macro_views(s: Seq<MacroBinding>) -> Seq<(Seq<char>, Seq<char>, Seq<char>)> {
    s.map_values(|b: MacroBinding| (b.local@, b.path@, b.name@))
}

pub open spec fn namespace_views(s: Seq<NamespaceBinding>) -> Seq<(Seq<char>, Seq<char>)> {
    s.map_values(|b: NamespaceBinding| (b.local@, b.path@))
}

fn push_macro(v: &mut Vec<MacroBinding>, b: MacroBinding)
    ensures
        macro_views(final(v)@) == macro_views(old(v)@).push((b.local@, b.path@, b.name@)),
{
    v.push(b);
    assert(macro_views(v@) =~= macro_views(old(v)@).push((b.local@, b.path@, b.name@)));
}

fn push_namespace(v: &mut Vec<NamespaceBinding>, b: NamespaceBinding)
    ensures
        namespace_views(final(v)@) == namespace_views(old(v)@).push((b.local@, b.path@)),
{
    v.push(b);
    assert(namespace_views(v@) =~= namespace_views(old(v)@).push((b.local@, b.path@)));
}

/// The name an identifier-like node carries.
fn name_text(n: &Node) -> (s: String)
    ensures
        s@ == name_of(n@),
{
    match &n.payload {
        Payload::Name(s) => s.clone(),
        _ => String::new(),
    }
}

impl MacroImportFinder {
    pub open spec fn macros(&self) -> Seq<(Seq<char>, Seq<char>, Seq<char>)> {
        macro_views(self.macro_imports@)
    }

    pub open spec fn namespaces(&self) -> Seq<(Seq<char>, Seq<char>)> {
        namespace_views(self.namespace_imports@)
    }

    /// The macro bindings of a module's import items, in source order.
    pub fn find(module: &Node) -> (f: Self)
        ensures
            f.macros() == macro_bindings(module@.children),
            f.namespaces() == namespace_bindings(module@.children),
    {
        let mut macro_imports: Vec<MacroBinding> = Vec::new();
        let mut namespace_imports: Vec<NamespaceBinding> = Vec::new();
        let ghost items = nodes_view(module.children);
        proof {
            lemma_view_nodes(module.children@);
        }
        let mut i: usize = 0;
        while i < module.children.len()
            invariant
                i <= module.children.len(),
                items == nodes_view(module.children),
                items.len() == module.children.len(),
                forall|j: int| 0 <= j < module.children.len() ==> #[trigger] items[j] == view_node(module.children@[j]),
                macro_views(macro_imports@) == macro_bindings(items.take(i as int)),
                namespace_views(namespace_imports@) == namespace_bindings(items.take(i as int)),
            decreases module.children.len() - i,
        {
            let item = &module.children[i];
            assert(items.take(i + 1).drop_last() =~= items.take(i as int));
            let ghost m0 = macro_views(macro_imports@);
            let ghost n0 = namespace_views(namespace_imports@);
            if item.kind == Kind::Import {
                if let Payload::Import(d) = &item.payload {
                    if ends_with(&d.src, ".macro.js") {
                        let ghost specs = d@.specifiers;
                        let mut k: usize = 0;
                        while k < d.specifiers.len()
                            invariant
                                k <= d.specifiers.len(),
                                specs == d@.specifiers,
                                specs.len() == d.specifiers.len(),
                                macro_views(macro_imports@) == m0 + named_bindings(specs.take(k as int), d.src@),
                                namespace_views(namespace_imports@) == n0 + star_bindings(specs.take(k as int), d.src@),
                            decreases d.specifiers.len() - k,
                        {
                            let s = &d.specifiers[k];
                            assert(specs[k as int] == s@);
                            assert(specs.take(k + 1).drop_last() =~= specs.take(k as int));
                            assert(specs.take(k + 1).last() == s@);
                            if s.kind == ImportKind::Named {
                                let name = match &s.imported {
                                    Some(x) => x.clone(),
                                    None => s.local.clone(),
                                };
                                push_macro(&mut macro_imports, MacroBinding { local: s.local.clone(), path: d.src.clone(), name });
                                assert(macro_views(macro_imports@) =~= m0 + named_bindings(specs.take(k + 1), d.src@));
                                assert(namespace_views(namespace_imports@) =~= n0 + star_bindings(specs.take(k + 1), d.src@));
                            } else if s.kind == ImportKind::Namespace {
                                push_namespace(&mut namespace_imports, NamespaceBinding { local: s.local.clone(), path: d.src.clone() });
                                assert(macro_views(macro_imports@) =~= m0 + named_bindings(specs.take(k + 1), d.src@));
                                assert(namespace_views(namespace_imports@) =~= n0 + star_bindings(specs.take(k + 1), d.src@));
                            } else {
                                assert(macro_views(macro_imports@) =~= m0 + named_bindings(specs.take(k + 1), d.src@));
                                assert(namespace_views(namespace_imports@) =~= n0 + star_bindings(specs.take(k + 1), d.src@));
                            }
                            k = k + 1;
                        }
                        assert(specs.take(d.specifiers.len() as int) =~= specs);
                    } else {
                        assert(macro_views(macro_imports@) =~= macro_bindings(items.take(i + 1)));
                        assert(namespace_views(namespace_imports@) =~= namespace_bindings(items.take(i + 1)));
                    }
                } else {
                    assert(macro_views(macro_imports@) =~= macro_bindings(items.take(i + 1)));
                    assert(namespace_views(namespace_imports@) =~= namespace_bindings(items.take(i + 1)));
                }
            } else {
                assert(macro_views(macro_imports@) =~= macro_bindings(items.take(i + 1)));
                assert(namespace_views(namespace_imports@) =~= namespace_bindings(items.take(i + 1)));
            }
            i = i + 1;
        }
        assert(items.take(module.children.len() as int) =~= items);
        MacroImportFinder { macro_imports, namespace_imports }
    }

    /// The macro a local name is bound to, as module path and exported name.
    pub fn lookup_macro(&self, x: &String) -> (r: Option<(String, String)>)
        ensures
            match r {
                Some((p, n)) => lookup_macro(self.macros(), x@) == Some((p@, n@)),
                None => lookup_macro(self.macros(), x@) is None,
            },
    {
        let ghost ms = self.macros();
        let mut i: usize = self.macro_imports.len();
        assert(ms.take(i as int) =~= ms);
        while i > 0
            invariant
                i <= self.macro_imports.len(),
                ms == self.macros(),
                ms.len() == self.macro_imports.len(),
                lookup_macro(ms, x@) == lookup_macro(ms.take(i as int), x@),
            decreases i,
        {
            i = i - 1;
            let b = &self.macro_imports[i];
            assert(ms.take(i + 1).drop_last() =~= ms.take(i as int));
            assert(ms.take(i + 1).last() == (b.local@, b.path@, b.name@));
            if b.local == *x {
                return Some((b.path.clone(), b.name.clone()));
            }
        }
        None
    }

    /// The macro module a namespace name is bound to.
    pub fn lookup_namespace(&self, x: &String) -> (r: Option<String>)
        ensures
            match r {
                Some(p) => lookup_namespace(self.namespaces(), x@) == Some(p@),
                None => lookup_namespace(self.namespaces(), x@) is None,
            },
    {
        let ghost ns = self.namespaces();
        let mut i: usize = self.namespace_imports.len();
        assert(ns.take(i as int) =~= ns);
        while i > 0
            invariant
                i <= self.namespace_imports.len(),
                ns == self.namespaces(),
                ns.len() == self.namespace_imports.len(),
                lookup_namespace(ns, x@) == lookup_namespace(ns.take(i as int), x@),
            decreases i,
        {
            i = i - 1;
            let b = &self.namespace_imports[i];
            assert(ns.take(i + 1).drop_last() =~= ns.take(i as int));
            assert(ns.take(i + 1).last() == (b.local@, b.path@));
            if b.local == *x {
                return Some(b.path.clone());
            }
        }
        None
    }
}

// ---------------------------------------------------------------------------
// Lexical scope

/// Lexical scope during expansion: a stack of frames of runtime-local names,
/// empty at module level.
pub struct Scope {
    pub frames: Vec<Vec<String>>,
}

pub open spec fn frame_view(f: Vec<String>) -> Seq<Seq<char>> {
    f@.map_values(|s: String| s@)
}

impl View for Scope {
    type V = Seq<Seq<Seq<char>>>;

    open spec fn view(&self) -> Seq<Seq<Seq<char>>> {
        self.frames@.map_values(|f: Vec<String>| frame_view(f))
    }
}

impl Scope {
    /// The module-level scope.
    pub fn new() -> (s: Scope)
        ensures
            s@ == Seq::<Seq<Seq<char>>>::empty(),
    {
        let s = Scope { frames: Vec::new() };
        assert(s@ =~= Seq::<Seq<Seq<char>>>::empty());
        s
    }

    pub fn enter(&mut self)
        ensures
            final(self)@ == scope_enter(old(self)@),
    {
        let f: Vec<String> = Vec::new();
        assert(frame_view(f) =~= Seq::<Seq<char>>::empty());
        self.frames.push(f);
        assert(self@ =~= scope_enter(old(self)@));
    }

    pub fn leave(&mut self)
        ensures
            final(self)@ == scope_leave(old(self)@),
    {
        if self.frames.len() > 0 {
            let _ = self.frames.pop();
            assert(self@ =~= scope_leave(old(self)@));
        }
    }

    /// Binds a name in the innermost frame; nothing at module level.
    pub fn add(&mut self, name: String)
        ensures
            final(self)@ == scope_add(old(self)@, name@),
    {
        if self.frames.len() > 0 {
            let mut f = self.frames.pop().unwrap();
            let ghost f0 = f;
            assert(frame_view(f0) == old(self)@.last());
            let mut j: usize = 0;
            let mut found = false;
            while j < f.len()
                invariant
                    j <= f.len(),
                    f == f0,
                    found == exists|k: int| 0 <= k < j && frame_view(f0)[k] == name@,
                decreases f.len() - j,
            {
                assert(frame_view(f0)[j as int] == f@[j as int]@);
                if f[j] == name {
                    found = true;
                }
                j = j + 1;
            }
            if !found {
                f.push(name);
                assert(frame_view(f) =~= frame_view(f0).push(name@));
            } else {
                assert(frame_view(f0).contains(name@));
            }
            self.frames.push(f);
            assert(self@ =~= scope_add(old(self)@, name@));
        }
    }

    /// Binds the parameters that are plain identifiers.
    pub fn add_params(&mut self, ps: &Vec<Node>)
        ensures
            final(self)@ == add_params(old(self)@, nodes_view(*ps)),
    {
        let ghost sp = nodes_view(*ps);
        proof {
            lemma_view_nodes(ps@);
        }
        let mut i: usize = 0;
        while i < ps.len()
            invariant
                i <= ps.len(),
                sp == nodes_view(*ps),
                sp.len() == ps.len(),
                forall|j: int| 0 <= j < ps.len() ==> #[trigger] sp[j] == view_node(ps@[j]),
                self@ == add_params(old(self)@, sp.take(i as int)),
            decreases ps.len() - i,
        {
            assert(sp.take(i + 1).drop_last() =~= sp.take(i as int));
            let p = &ps[i];
            proof {
                lemma_view_nodes(p.children@);
            }
            if p.kind == Kind::PIdent {
                self.add(name_text(p));
            } else if (p.kind == Kind::PDefault || p.kind == Kind::PRest) && p.children.len() >= 1
                && p.children[0].kind == Kind::PIdent {
                self.add(name_text(&p.children[0]));
            }
            i = i + 1;
        }
        assert(sp.take(ps.len() as int) =~= sp);
    }

    /// Whether a name is bound in some frame.
    pub fn has(&self, name: &String) -> (b: bool)
        ensures
            b == scope_has(self@, name@),
    {
        let ghost sc = self@;
        let mut i: usize = 0;
        while i < self.frames.len()
            invariant
                i <= self.frames.len(),
                sc == self@,
                sc.len() == self.frames.len(),
                forall|a: int, c: int| 0 <= a < i && 0 <= c < sc[a].len() ==> sc[a][c] != name@,
            decreases self.frames.len() - i,
        {
            let f = &self.frames[i];
            assert(sc[i as int] == frame_view(*f));
            let mut j: usize = 0;
            while j < f.len()
                invariant
                    j <= f.len(),
                    i < self.frames.len(),
                    sc == self@,
                    sc[i as int] == frame_view(*f),
                    sc[i as int].len() == f.len(),
                    forall|c: int| 0 <= c < j ==> sc[i as int][c] != name@,
                decreases f.len() - j,
            {
                assert(sc[i as int][j as int] == f@[j as int]@);
                if f[j] == *name {
                    return true;
                }
                j = j + 1;
            }
            i = i + 1;
        }
        false
    }
}

/// Whether a name is bound in some frame.
pub open spec fn scope_has(sc: Seq<Seq<Seq<char>>>, x: Seq<char>) -> bool {
    exists|i: int, j: int| 0 <= i < sc.len() && 0 <= j < sc[i].len() && #[trigger] sc[i][j] == x
}

/// A name bound in the innermost frame, where it is not bound yet; nothing
/// at module level.
pub open spec fn scope_add(sc: Seq<Seq<Seq<char>>>, x: Seq<char>) -> Seq<Seq<Seq<char>>> {
    if sc.len() == 0 || sc.last().contains(x) {
        sc
    } else {
        sc.update(sc.len() - 1, sc.last().push(x))
    }
}

pub open spec fn scope_enter(sc: Seq<Seq<Seq<char>>>) -> Seq<Seq<Seq<char>>> {
    sc.push(Seq::empty())
}

pub open spec fn scope_leave(sc: Seq<Seq<Seq<char>>>) -> Seq<Seq<Seq<char>>> {
    if sc.len() == 0 {
        sc
    } else {
        sc.drop_last()
    }
}

/// The name a parameter binds, when it is an identifier (with or without a
/// default, or after `...`).
pub open spec fn param_binding(p: SpecNode) -> Option<Seq<char>> {
    if p.kind == Kind::PIdent {
        Some(name_of(p))
    } else if (p.kind == Kind::PDefault || p.kind == Kind::PRest) && p.children.len() >= 1
        && p.children[0].kind == Kind::PIdent {
        Some(name_of(p.children[0]))
    } else {
        None
    }
}

/// The parameters that are identifiers, bound in the innermost frame.
pub open spec fn add_params(sc: Seq<Seq<Seq<char>>>, ps: Seq<SpecNode>) -> Seq<Seq<Seq<char>>>
    decreases ps.len(),
{
    if ps.len() == 0 {
        sc
    } else {
        let sc1 = add_params(sc, ps.drop_last());
        match param_binding(ps.last()) {
            Some(x) => scope_add(sc1, x),
            None => sc1,
        }
    }
}

// ---------------------------------------------------------------------------
// Requests to the sandbox and its replies

/// What expansion asks of the sandbox.
pub enum Request {
    /// Run the macro `name` of the macro module `path` on the JSON of the arguments.
    Call { path: String, name: String, args: Vec<JsonValue> },
    /// Parse a syntax template's source text as a module.
    Parse { source: String },
}

pub enum SpecRequest {
    Call { path: Seq<char>, name: Seq<char>, args: Seq<SpecJson> },
    Parse { source: Seq<char> },
}

impl View for Request {
    type V = SpecRequest;

    open spec fn view(&self) -> SpecRequest {
        match self {
            Request::Call { path, name, args } => SpecRequest::Call { path: path@, name: name@, args: jsons_view(*args) },
            Request::Parse { source } => SpecRequest::Parse { source: source@ },
        }
    }
}

/// What the sandbox answered.
pub enum Reply {
    /// The macro's result, or `None` when running it failed.
    Called(Option<JsonValue>),
    /// The parsed template, or `None` when it did not parse.
    Parsed(Option<Node>),
}

pub enum SpecReply {
    Called(Option<SpecJson>),
    Parsed(Option<SpecNode>),
}

impl View for Reply {
    type V = SpecReply;

    open spec fn view(&self) -> SpecReply {
        match self {
            Reply::Called(r) => SpecReply::Called(match r { Some(j) => Some(j@), None => None }),
            Reply::Parsed(p) => SpecReply::Parsed(match p { Some(m) => Some(m@), None => None }),
        }
    }
}

pub open spec fn replies_view(v: Vec<Reply>) -> Seq<SpecReply> {
    v@.map_values(|r: Reply| r@)
}

/// What expansion works from: the bindings and the replies so far.
pub struct SpecCtx {
    pub macros: Seq<(Seq<char>, Seq<char>, Seq<char>)>,
    pub namespaces: Seq<(Seq<char>, Seq<char>)>,
    pub replies: Seq<SpecReply>,
}

pub open spec fn ctx_of(f: MacroImportFinder, replies: Vec<Reply>) -> SpecCtx {
    SpecCtx { macros: f.macros(), namespaces: f.namespaces(), replies: replies_view(replies) }
}

// ---------------------------------------------------------------------------
// A pass, as mathematics

/// Where a pass stands: the replies used, whether a macro was expanded, the scope.
pub struct Cursor {
    pub pos: nat,
    pub expanded: bool,
    pub scope: Seq<Seq<Seq<char>>>,
}

/// The outcome of expanding part of a module: the result and where the pass
/// then stands; a request that has no reply yet; a macro result that cannot
/// be turned into syntax (a malformed arrow parameter); replacements nested
/// deeper than allowed (with the expansion stack: the spans of the calls whose
/// replacements led there, outermost first); a reply of the wrong kind; a
/// macro result that is no syntax for the place of its call, or a macro that
/// failed (each at the call's span).
pub enum Folded<T> {
    Ready(T, Cursor),
    Need(SpecRequest),
    Fault,
    Deep(Seq<Span>),
    Stray,
    Invalid(Span),
    Failed(Span),
}

/// A failed outcome, carried over to another type.
pub open spec fn bail<A, B>(f: Folded<A>) -> Folded<B> {
    match f {
        Folded::Need(q) => Folded::Need(q),
        Folded::Fault => Folded::Fault,
        Folded::Deep(sp) => Folded::Deep(sp),
        Folded::Invalid(sp) => Folded::Invalid(sp),
        Folded::Failed(sp) => Folded::Failed(sp),
        _ => Folded::Stray,
    }
}

pub open spec fn reply_at(replies: Seq<SpecReply>, pos: nat) -> Option<SpecReply> {
    if pos < replies.len() {
        Some(replies[pos as int])
    } else {
        None
    }
}

/// One more reply used.
pub open spec fn consumed(c: Cursor) -> Cursor {
    Cursor { pos: c.pos + 1, expanded: c.expanded, scope: c.scope }
}

/// A macro expanded.
pub open spec fn marked(c: Cursor) -> Cursor {
    Cursor { pos: c.pos, expanded: true, scope: c.scope }
}

pub open spec fn with_scope(c: Cursor, sc: Seq<Seq<Seq<char>>>) -> Cursor {
    Cursor { pos: c.pos, expanded: c.expanded, scope: sc }
}

/// The macro a call invokes, as module path and exported name: an unshadowed
/// identifier bound to a macro, or a member of a namespace bound to a macro module.
pub open spec fn resolve_call(call: SpecNode, cx: SpecCtx, sc: Seq<Seq<Seq<char>>>) -> Option<(Seq<char>, Seq<char>)> {
    let callee = child(call, 0);
    if callee.kind == Kind::EIdent {
        if scope_has(sc, name_of(callee)) {
            None
        } else {
            lookup_macro(cx.macros, name_of(callee))
        }
    } else if callee.kind == Kind::EMember && child(callee, 0).kind == Kind::EIdent
        && child(callee, 1).kind == Kind::PropName {
        match lookup_namespace(cx.namespaces, name_of(child(callee, 0))) {
            Some(p) => Some((p, name_of(child(callee, 1)))),
            None => None,
        }
    } else {
        None
    }
}

/// The JSON of an argument's expression, a spread taken as what it spreads.
pub open spec fn arg_json(a: SpecNode) -> SpecJson {
    to_json(child(a, 0), ToJson::Expr)
}

pub open spec fn args_json(s: Seq<SpecNode>) -> Seq<SpecJson> {
    s.map_values(|a: SpecNode| arg_json(a))
}

/// The JSON of a call's arguments.
pub open spec fn call_args_json(call: SpecNode) -> Seq<SpecJson> {
    args_json(child(call, 1).children)
}

pub open spec fn text_or_empty(t: Option<Seq<char>>) -> Seq<char> {
    match t {
        Some(s) => s,
        None => Seq::empty(),
    }
}

/// The kind, code and values of a macro result that is a syntax template.
pub open spec fn template_parts(res: SpecJson) -> Option<(Seq<char>, Seq<char>, Seq<SpecJson>)> {
    if jget(res, "type"@) == Some(SpecJson::Str("TemplateResult"@)) {
        Some((
            text_or_empty(jget_str(res, "kind"@)),
            text_or_empty(jget_str(res, "code"@)),
            match jas_array(jget(res, "values"@)) {
                Some(a) => a,
                None => Seq::empty(),
            },
        ))
    } else {
        None
    }
}

/// A macro result made final: a template is resolved against its parse; one
/// that yields nothing makes the call at `site` invalid.
pub open spec fn handle_result(res: SpecJson, cx: SpecCtx, cur: Cursor, site: Span) -> Folded<SpecJson> {
    match template_parts(res) {
        None => Folded::Ready(res, cur),
        Some((kind, code, values)) => match reply_at(cx.replies, cur.pos) {
            None => Folded::Need(SpecRequest::Parse { source: template_text(kind, code) }),
            Some(SpecReply::Parsed(p)) => match resolve_template_spec(kind, p, values) {
                Conv::Done(j) => Folded::Ready(j, consumed(cur)),
                Conv::Fail => Folded::Invalid(site),
                Conv::Crash => Folded::Fault,
            },
            Some(SpecReply::Called(_)) => Folded::Stray,
        },
    }
}

/// A node rebuilt around its expanded children.
pub open spec fn rebuild(n: SpecNode, f: Folded<Seq<SpecNode>>) -> Folded<SpecNode> {
    match f {
        Folded::Ready(cs, c) => Folded::Ready(snode(n.kind, n.span, n.payload, cs), c),
        _ => bail(f),
    }
}

/// A function's result, its scope frame left.
pub open spec fn leave_fn(f: Folded<SpecNode>) -> Folded<SpecNode> {
    match f {
        Folded::Ready(x, c) => Folded::Ready(x, with_scope(c, scope_leave(c.scope))),
        _ => f,
    }
}

/// The scope a function expression's parameters and body are expanded in.
pub open spec fn fn_expr_scope(sc: Seq<Seq<Seq<char>>>, n: SpecNode) -> Seq<Seq<Seq<char>>> {
    let sc1 = scope_enter(sc);
    let sc2 = if n.children[0].kind == Kind::Ident { scope_add(sc1, name_of(n.children[0])) } else { sc1 };
    add_params(sc2, n.children[1].children)
}

/// The scope a function declaration's parameters and body are expanded in;
/// its name is bound in the enclosing frame.
pub open spec fn fn_decl_scope(sc: Seq<Seq<Seq<char>>>, n: SpecNode) -> Seq<Seq<Seq<char>>> {
    add_params(scope_enter(scope_add(sc, name_of(n.children[0]))), n.children[1].children)
}

/// The outcome of expanding a macro call's replacement: where nesting ran too
/// deep, the call at `site` joins the front of the calls that led there.
pub open spec fn within(site: Span, f: Folded<SpecNode>) -> Folded<SpecNode> {
    match f {
        Folded::Deep(stack) => Folded::Deep(seq![site] + stack),
        _ => f,
    }
}

/// Whether a node is an expression statement whose expression is a macro call.
pub open spec fn is_stmt_call(n: SpecNode, cx: SpecCtx, sc: Seq<Seq<Seq<char>>>) -> bool {
    n.kind == Kind::SExpr && n.children.len() > 0 && n.children[0].kind == Kind::ECall
        && resolve_call(n.children[0], cx, sc) is Some
}

/// Expansion of a node: a macro call is replaced by its result, which is
/// expanded again (a macro that failed, or whose result is no expression,
/// makes the call invalid); an expression statement that is a macro call, at
/// any depth, is replaced by the statement its result stands for, expanded
/// again (a result that stands for no statement has its call expanded as an
/// expression); anything else has its children expanded in source order,
/// functions in a scope of their own.
pub open spec fn fold_node(n: SpecNode, cx: SpecCtx, budget: nat, cur: Cursor) -> Folded<SpecNode>
    decreases budget, n,
{
    if n.kind == Kind::ECall && resolve_call(n, cx, cur.scope) is Some {
        let target = resolve_call(n, cx, cur.scope)->Some_0;
        match reply_at(cx.replies, cur.pos) {
            None => Folded::Need(SpecRequest::Call { path: target.0, name: target.1, args: call_args_json(n) }),
            Some(SpecReply::Called(None)) => Folded::Failed(n.span),
            Some(SpecReply::Called(Some(res))) => match handle_result(res, cx, consumed(cur), n.span) {
                Folded::Ready(j, c1) => match from_json(j, FromJson::Expr, n.span) {
                    Conv::Done(e) => if budget == 0 {
                        Folded::Deep(seq![n.span])
                    } else {
                        within(n.span, fold_node(e, cx, (budget - 1) as nat, marked(c1)))
                    },
                    Conv::Fail => Folded::Invalid(n.span),
                    Conv::Crash => Folded::Fault,
                },
                other => bail(other),
            },
            Some(SpecReply::Parsed(_)) => Folded::Stray,
        }
    } else if is_stmt_call(n, cx, cur.scope) {
        let call = n.children[0];
        let target = resolve_call(call, cx, cur.scope)->Some_0;
        match reply_at(cx.replies, cur.pos) {
            None => Folded::Need(SpecRequest::Call { path: target.0, name: target.1, args: call_args_json(call) }),
            Some(SpecReply::Called(None)) => Folded::Failed(call.span),
            Some(SpecReply::Called(Some(res))) => match handle_result(res, cx, consumed(cur), call.span) {
                Folded::Ready(j, c1) => match from_json(j, FromJson::Stmt, n.span) {
                    Conv::Done(st) => if budget == 0 {
                        Folded::Deep(seq![call.span])
                    } else {
                        within(call.span, fold_node(st, cx, (budget - 1) as nat, marked(c1)))
                    },
                    Conv::Fail => rebuild(n, fold_list(n.children, cx, budget, c1)),
                    Conv::Crash => Folded::Fault,
                },
                other => bail(other),
            },
            Some(SpecReply::Parsed(_)) => Folded::Stray,
        }
    } else if n.kind == Kind::SFnDecl && n.children.len() == 3 {
        leave_fn(rebuild(n, fold_list(n.children, cx, budget, with_scope(cur, fn_decl_scope(cur.scope, n)))))
    } else if n.kind == Kind::EFn && n.children.len() == 3 {
        leave_fn(rebuild(n, fold_list(n.children, cx, budget, with_scope(cur, fn_expr_scope(cur.scope, n)))))
    } else if n.kind == Kind::EArrow && n.children.len() == 2 {
        let sc = add_params(scope_enter(cur.scope), n.children[0].children);
        leave_fn(match fold_node(n.children[1], cx, budget, with_scope(cur, sc)) {
            Folded::Ready(b, c) => Folded::Ready(snode(n.kind, n.span, n.payload, seq![n.children[0], b]), c),
            other => bail(other),
        })
    } else if declares_local(n) {
        rebuild(n, fold_list(n.children, cx, budget, with_scope(cur, scope_add(cur.scope, name_of(n.children[0])))))
    } else {
        rebuild(n, fold_list(n.children, cx, budget, cur))
    }
}

/// Whether a node is a declarator of a plain identifier, whose name is then
/// a runtime-local variable of the innermost function.
pub open spec fn declares_local(n: SpecNode) -> bool {
    n.kind == Kind::Declarator && n.children.len() >= 1 && n.children[0].kind == Kind::PIdent
}

/// Expansion of a list of nodes, in order.
pub open spec fn fold_list(s: Seq<SpecNode>, cx: SpecCtx, budget: nat, cur: Cursor) -> Folded<Seq<SpecNode>>
    decreases budget, s,
{
    if s.len() == 0 {
        Folded::Ready(Seq::empty(), cur)
    } else {
        match fold_list(s.drop_last(), cx, budget, cur) {
            Folded::Ready(xs, c1) => match fold_node(s.last(), cx, budget, c1) {
                Folded::Ready(x, c2) => Folded::Ready(xs.push(x), c2),
                other => bail(other),
            },
            other => bail(other),
        }
    }
}

/// A node as a list of one.
pub open spec fn single(f: Folded<SpecNode>) -> Folded<Seq<SpecNode>> {
    match f {
        Folded::Ready(x, c) => Folded::Ready(seq![x], c),
        _ => bail(f),
    }
}

/// Expansion of a module item: a macro import is dropped; anything else is
/// expanded as a node.
pub open spec fn fold_item(item: SpecNode, cx: SpecCtx, budget: nat, cur: Cursor) -> Folded<Seq<SpecNode>> {
    if is_macro_import(item) {
        Folded::Ready(Seq::empty(), cur)
    } else {
        single(fold_node(item, cx, budget, cur))
    }
}

/// Expansion of a module's items, in order.
pub open spec fn fold_items(s: Seq<SpecNode>, cx: SpecCtx, budget: nat, cur: Cursor) -> Folded<Seq<SpecNode>>
    decreases s.len(),
{
    if s.len() == 0 {
        Folded::Ready(Seq::empty(), cur)
    } else {
        match fold_items(s.drop_last(), cx, budget, cur) {
            Folded::Ready(xs, c1) => match fold_item(s.last(), cx, budget, c1) {
                Folded::Ready(ys, c2) => Folded::Ready(xs + ys, c2),
                other => bail(other),
            },
            other => bail(other),
        }
    }
}

/// The cursor a pass starts from.
pub open spec fn start(pos: nat) -> Cursor {
    Cursor { pos, expanded: false, scope: Seq::empty() }
}

/// One pass over a module, using replies from `pos` on.
pub open spec fn fold_pass(m: SpecNode, cx: SpecCtx, budget: nat, pos: nat) -> Folded<SpecNode> {
    rebuild(m, fold_items(m.children, cx, budget, start(pos)))
}

/// The outcome of expansion: as for `Folded`, and `Unsettled` when the last
/// pass allowed still expanded a macro.
pub enum Expanded {
    Need(SpecRequest),
    Done(SpecNode),
    Fault,
    Deep(Seq<Span>),
    Stray,
    Invalid(Span),
    Failed(Span),
    Unsettled,
}

/// Passes from the `depth`-th on: expansion ends after a pass that expanded
/// nothing, and fails when the last pass allowed still expanded something.
pub open spec fn expand_from(m: SpecNode, cx: SpecCtx, budget: nat, pos: nat, depth: nat) -> Expanded
    decreases MAX_EXPANSION_DEPTH - depth,
{
    match fold_pass(m, cx, budget, pos) {
        Folded::Ready(m2, c) => if !c.expanded {
            Expanded::Done(m2)
        } else if depth + 1 >= MAX_EXPANSION_DEPTH {
            Expanded::Unsettled
        } else {
            expand_from(m2, cx, budget, c.pos, depth + 1)
        },
        Folded::Need(q) => Expanded::Need(q),
        Folded::Fault => Expanded::Fault,
        Folded::Deep(sp) => Expanded::Deep(sp),
        Folded::Stray => Expanded::Stray,
        Folded::Invalid(sp) => Expanded::Invalid(sp),
        Folded::Failed(sp) => Expanded::Failed(sp),
    }
}

/// The expansion of a module, given the sandbox's replies so far and the
/// depth to which replacements may nest.
pub open spec fn expansion(m: SpecNode, replies: Seq<SpecReply>, budget: nat) -> Expanded {
    expand_from(
        m,
        SpecCtx { macros: macro_bindings(m.children), namespaces: namespace_bindings(m.children), replies },
        budget,
        0,
        0,
    )
}

// ---------------------------------------------------------------------------
// A pass, executed

/// The state of a pass: the replies used, whether a macro was expanded, the scope.
pub struct MacroExpander {
    pub pos: usize,
    pub expanded_this_pass: bool,
    pub scope: Scope,
}

impl View for MacroExpander {
    type V = Cursor;

    open spec fn view(&self) -> Cursor {
        Cursor { pos: self.pos as nat, expanded: self.expanded_this_pass, scope: self.scope@ }
    }
}

/// The outcome of executing part of a pass.
pub enum Flow<T> {
    Ready(T),
    Need(Request),
    Fault,
    Deep(Vec<Span>),
    Stray,
    Invalid(Span),
    Failed(Span),
}

pub open spec fn node_flow(r: Flow<Node>, c: Cursor, f: Folded<SpecNode>) -> bool {
    match f {
        Folded::Ready(x, c2) => match r {
            Flow::Ready(y) => y@ == x && c == c2,
            _ => false,
        },
        Folded::Need(q) => match r {
            Flow::Need(q2) => q2@ == q,
            _ => false,
        },
        Folded::Fault => r is Fault,
        Folded::Deep(sp) => match r {
            Flow::Deep(s) => s@ == sp,
            _ => false,
        },
        Folded::Stray => r is Stray,
        Folded::Invalid(sp) => match r {
            Flow::Invalid(s) => s == sp,
            _ => false,
        },
        Folded::Failed(sp) => match r {
            Flow::Failed(s) => s == sp,
            _ => false,
        },
    }
}

pub open spec fn list_flow(r: Flow<Vec<Node>>, c: Cursor, f: Folded<Seq<SpecNode>>) -> bool {
    match f {
        Folded::Ready(x, c2) => match r {
            Flow::Ready(y) => nodes_view(y) == x && c == c2,
            _ => false,
        },
        Folded::Need(q) => match r {
            Flow::Need(q2) => q2@ == q,
            _ => false,
        },
        Folded::Fault => r is Fault,
        Folded::Deep(sp) => match r {
            Flow::Deep(s) => s@ == sp,
            _ => false,
        },
        Folded::Stray => r is Stray,
        Folded::Invalid(sp) => match r {
            Flow::Invalid(s) => s == sp,
            _ => false,
        },
        Folded::Failed(sp) => match r {
            Flow::Failed(s) => s == sp,
            _ => false,
        },
    }
}

pub open spec fn json_flow(r: Flow<JsonValue>, c: Cursor, f: Folded<SpecJson>) -> bool {
    match f {
        Folded::Ready(x, c2) => match r {
            Flow::Ready(y) => y@ == x && c == c2,
            _ => false,
        },
        Folded::Need(q) => match r {
            Flow::Need(q2) => q2@ == q,
            _ => false,
        },
        Folded::Fault => r is Fault,
        Folded::Deep(sp) => match r {
            Flow::Deep(s) => s@ == sp,
            _ => false,
        },
        Folded::Stray => r is Stray,
        Folded::Invalid(sp) => match r {
            Flow::Invalid(s) => s == sp,
            _ => false,
        },
        Folded::Failed(sp) => match r {
            Flow::Failed(s) => s == sp,
            _ => false,
        },
    }
}

fn rebuild_flow(n: &Node, r: Flow<Vec<Node>>, Ghost(c): Ghost<Cursor>, Ghost(f): Ghost<Folded<Seq<SpecNode>>>) -> (o: Flow<Node>)
    requires
        list_flow(r, c, f),
    ensures
        node_flow(o, c, rebuild(n@, f)),
{
    match r {
        Flow::Ready(cs) => Flow::Ready(make(n.kind, n.span, copy_payload(&n.payload), cs)),
        Flow::Need(q) => Flow::Need(q),
        Flow::Fault => Flow::Fault,
        Flow::Deep(sp) => Flow::Deep(sp),
        Flow::Stray => Flow::Stray,
        Flow::Invalid(sp) => Flow::Invalid(sp),
        Flow::Failed(sp) => Flow::Failed(sp),
    }
}

fn one_span(sp: Span) -> (v: Vec<Span>)
    ensures
        v@ == seq![sp],
{
    let mut v: Vec<Span> = Vec::new();
    v.push(sp);
    v
}

fn within_flow(site: Span, r: Flow<Node>, Ghost(c): Ghost<Cursor>, Ghost(f): Ghost<Folded<SpecNode>>) -> (o: Flow<Node>)
    requires
        node_flow(r, c, f),
    ensures
        node_flow(o, c, within(site, f)),
{
    match r {
        Flow::Deep(stack) => {
            let mut v = one_span(site);
            let mut i: usize = 0;
            while i < stack.len()
                invariant
                    i <= stack.len(),
                    v@ == seq![site] + stack@.take(i as int),
                decreases stack.len() - i,
            {
                v.push(stack[i]);
                assert(stack@.take(i + 1) =~= stack@.take(i as int).push(stack@[i as int]));
                i = i + 1;
            }
            assert(stack@.take(stack.len() as int) =~= stack@);
            Flow::Deep(v)
        },
        other => other,
    }
}

fn single_flow(r: Flow<Node>, Ghost(c): Ghost<Cursor>, Ghost(f): Ghost<Folded<SpecNode>>) -> (o: Flow<Vec<Node>>)
    requires
        node_flow(r, c, f),
    ensures
        list_flow(o, c, single(f)),
{
    match r {
        Flow::Ready(x) => Flow::Ready(crate::ast::one(x)),
        Flow::Need(q) => Flow::Need(q),
        Flow::Fault => Flow::Fault,
        Flow::Deep(sp) => Flow::Deep(sp),
        Flow::Stray => Flow::Stray,
        Flow::Invalid(sp) => Flow::Invalid(sp),
        Flow::Failed(sp) => Flow::Failed(sp),
    }
}

/// The JSON of a call's arguments.
fn call_args(call: &Node) -> (r: Vec<JsonValue>)
    ensures
        jsons_view(r) == call_args_json(call@),
{
    proof {
        lemma_view_nodes(call.children@);
    }
    let mut out: Vec<JsonValue> = Vec::new();
    if call.children.len() < 2 {
        assert(call_args_json(call@) =~= Seq::<SpecJson>::empty());
        assert(jsons_view(out) =~= Seq::<SpecJson>::empty());
        return out;
    }
    let args = &call.children[1];
    let ghost sa = nodes_view(args.children);
    proof {
        lemma_view_nodes(args.children@);
    }
    assert(jsons_view(out) =~= args_json(sa.take(0)));
    let mut i: usize = 0;
    while i < args.children.len()
        invariant
            i <= args.children.len(),
            sa == nodes_view(args.children),
            sa.len() == args.children.len(),
            forall|j: int| 0 <= j < args.children.len() ==> #[trigger] sa[j] == view_node(args.children@[j]),
            jsons_view(out) == args_json(sa.take(i as int)),
        decreases args.children.len() - i,
    {
        let a = &args.children[i];
        proof {
            lemma_view_nodes(a.children@);
        }
        let x = if a.children.len() > 0 {
            node_to_json(&a.children[0], ToJson::Expr)
        } else {
            node_to_json(&crate::ast::leaf(Kind::Absent, crate::ast::dummy()), ToJson::Expr)
        };
        assert(x@ == arg_json(sa[i as int]));
        crate::json::push_json(&mut out, x);
        assert(args_json(sa.take(i + 1)) =~= args_json(sa.take(i as int)).push(arg_json(sa[i as int])));
        i = i + 1;
    }
    assert(sa.take(args.children.len() as int) =~= sa);
    out
}

fn is_macro_import_node(n: &Node) -> (b: bool)
    ensures
        b == is_macro_import(n@),
{
    if n.kind == Kind::Import {
        match &n.payload {
            Payload::Import(d) => ends_with(&d.src, ".macro.js"),
            _ => false,
        }
    } else {
        false
    }
}

proof fn lemma_fold_list_stop(s: Seq<SpecNode>, k: int, cx: SpecCtx, budget: nat, c: Cursor)
    requires
        0 <= k <= s.len(),
        !(fold_list(s.take(k), cx, budget, c) is Ready),
    ensures
        fold_list(s, cx, budget, c) == fold_list(s.take(k), cx, budget, c),
    decreases s.len() - k,
{
    if k < s.len() {
        assert(s.take(k + 1).drop_last() =~= s.take(k));
        lemma_fold_list_stop(s, k + 1, cx, budget, c);
    } else {
        assert(s.take(k) =~= s);
    }
}

proof fn lemma_fold_items_stop(s: Seq<SpecNode>, k: int, cx: SpecCtx, budget: nat, c: Cursor)
    requires
        0 <= k <= s.len(),
        !(fold_items(s.take(k), cx, budget, c) is Ready),
    ensures
        fold_items(s, cx, budget, c) == fold_items(s.take(k), cx, budget, c),
    decreases s.len() - k,
{
    if k < s.len() {
        assert(s.take(k + 1).drop_last() =~= s.take(k));
        lemma_fold_items_stop(s, k + 1, cx, budget, c);
    } else {
        assert(s.take(k) =~= s);
    }
}

impl MacroExpander {
    /// The macro a call invokes, as module path and exported name.
    fn resolve(&self, finder: &MacroImportFinder, replies: &Vec<Reply>, call: &Node) -> (r: Option<(String, String)>)
        ensures
            match r {
                Some((p, m)) => resolve_call(call@, ctx_of(*finder, *replies), self@.scope) == Some((p@, m@)),
                None => resolve_call(call@, ctx_of(*finder, *replies), self@.scope) is None,
            },
    {
        proof {
            lemma_view_nodes(call.children@);
        }
        if call.children.len() == 0 {
            return None;
        }
        let callee = &call.children[0];
        proof {
            lemma_view_nodes(callee.children@);
        }
        if callee.kind == Kind::EIdent {
            let name = name_text(callee);
            if self.scope.has(&name) {
                None
            } else {
                finder.lookup_macro(&name)
            }
        } else if callee.kind == Kind::EMember && callee.children.len() >= 2
            && callee.children[0].kind == Kind::EIdent && callee.children[1].kind == Kind::PropName {
            match finder.lookup_namespace(&name_text(&callee.children[0])) {
                Some(p) => Some((p, name_text(&callee.children[1]))),
                None => None,
            }
        } else {
            None
        }
    }

    /// A macro result made final.
    fn handle(&mut self, finder: &MacroImportFinder, replies: &Vec<Reply>, res: JsonValue, site: Span) -> (r: Flow<JsonValue>)
        requires
            old(self).pos <= replies.len(),
        ensures
            json_flow(r, final(self)@, handle_result(res@, ctx_of(*finder, *replies), old(self)@, site)),
            final(self).pos <= replies.len(),
    {
        let is_template = match get(&res, "type") {
            Some(JsonValue::Str(t)) => same_text(t, "TemplateResult"),
            _ => false,
        };
        if !is_template {
            return Flow::Ready(res);
        }
        let kind = match get_str(&res, "kind") {
            Some(k) => k.clone(),
            None => String::new(),
        };
        let code = match get_str(&res, "code") {
            Some(c) => c.clone(),
            None => String::new(),
        };
        let values = match get(&res, "values") {
            Some(JsonValue::Array(a)) => copy_jsons(a),
            _ => Vec::new(),
        };
        assert(jsons_view(values) == match jas_array(jget(res@, "values"@)) {
            Some(a) => a,
            None => Seq::<SpecJson>::empty(),
        });
        if self.pos >= replies.len() {
            return Flow::Need(Request::Parse { source: template_source(&kind, &code) });
        }
        assert(replies_view(*replies)[self.pos as int] == replies@[self.pos as int]@);
        match &replies[self.pos] {
            Reply::Parsed(p) => {
                let parsed: Option<&Node> = match p {
                    Some(m) => Some(m),
                    None => None,
                };
                match resolve_template(&kind, parsed, &values) {
                    Conv::Done(j) => {
                        self.pos = self.pos + 1;
                        Flow::Ready(j)
                    },
                    Conv::Fail => Flow::Invalid(site),
                    Conv::Crash => Flow::Fault,
                }
            },
            Reply::Called(_) => Flow::Stray,
        }
    }

    /// Expansion of a macro call, whose target is known.
    fn fold_call(
        &mut self,
        finder: &MacroImportFinder,
        replies: &Vec<Reply>,
        n: &Node,
        budget: usize,
        path: String,
        name: String,
    ) -> (r: Flow<Node>)
        requires
            old(self).pos <= replies.len(),
            n@.kind == Kind::ECall,
            resolve_call(n@, ctx_of(*finder, *replies), old(self)@.scope) == Some((path@, name@)),
        ensures
            node_flow(r, final(self)@, fold_node(n@, ctx_of(*finder, *replies), budget as nat, old(self)@)),
            final(self).pos <= replies.len(),
        decreases budget, n, 0nat,
    {
        proof {
            lemma_view_nodes(n.children@);
        }
        if self.pos >= replies.len() {
            return Flow::Need(Request::Call { path, name, args: call_args(n) });
        }
        assert(replies_view(*replies)[self.pos as int] == replies@[self.pos as int]@);
        match &replies[self.pos] {
            Reply::Called(None) => Flow::Failed(n.span),
            Reply::Called(Some(res)) => {
                self.pos = self.pos + 1;
                let h = self.handle(finder, replies, copy_json(res), n.span);
                match h {
                    Flow::Ready(j) => match node_from_json(&j, FromJson::Expr, n.span) {
                        Conv::Done(e) => {
                            if budget == 0 {
                                return Flow::Deep(one_span(n.span));
                            }
                            self.expanded_this_pass = true;
                            let ghost c1 = self@;
                            let r = self.fold_node(finder, replies, &e, budget - 1);
                            within_flow(n.span, r, Ghost(self@),
                                Ghost(fold_node(e@, ctx_of(*finder, *replies), (budget - 1) as nat, c1)))
                        },
                        Conv::Fail => Flow::Invalid(n.span),
                        Conv::Crash => Flow::Fault,
                    },
                    Flow::Need(q) => Flow::Need(q),
                    Flow::Fault => Flow::Fault,
                    Flow::Deep(sp) => Flow::Deep(sp),
                    Flow::Stray => Flow::Stray,
                    Flow::Invalid(sp) => Flow::Invalid(sp),
                    Flow::Failed(sp) => Flow::Failed(sp),
                }
            },
            Reply::Parsed(_) => Flow::Stray,
        }
    }

    /// Expansion of an expression statement that is a macro call, whose target is known.
    fn fold_stmt_call(
        &mut self,
        finder: &MacroImportFinder,
        replies: &Vec<Reply>,
        n: &Node,
        budget: usize,
        path: String,
        name: String,
    ) -> (r: Flow<Node>)
        requires
            old(self).pos <= replies.len(),
            n@.kind == Kind::SExpr,
            n@.children.len() > 0,
            n@.children[0].kind == Kind::ECall,
            resolve_call(n@.children[0], ctx_of(*finder, *replies), old(self)@.scope) == Some((path@, name@)),
        ensures
            node_flow(r, final(self)@, fold_node(n@, ctx_of(*finder, *replies), budget as nat, old(self)@)),
            final(self).pos <= replies.len(),
        decreases budget, n, 0nat,
    {
        proof {
            lemma_view_nodes(n.children@);
        }
        let call = &n.children[0];
        if self.pos >= replies.len() {
            return Flow::Need(Request::Call { path, name, args: call_args(call) });
        }
        assert(replies_view(*replies)[self.pos as int] == replies@[self.pos as int]@);
        match &replies[self.pos] {
            Reply::Called(None) => Flow::Failed(call.span),
            Reply::Called(Some(res)) => {
                self.pos = self.pos + 1;
                let h = self.handle(finder, replies, copy_json(res), call.span);
                match h {
                    Flow::Ready(j) => match node_from_json(&j, FromJson::Stmt, n.span) {
                        Conv::Done(st) => {
                            if budget == 0 {
                                return Flow::Deep(one_span(call.span));
                            }
                            self.expanded_this_pass = true;
                            let ghost c1 = self@;
                            let r = self.fold_node(finder, replies, &st, budget - 1);
                            within_flow(call.span, r, Ghost(self@),
                                Ghost(fold_node(st@, ctx_of(*finder, *replies), (budget - 1) as nat, c1)))
                        },
                        Conv::Fail => {
                            let ghost c1 = self@;
                            let r = self.fold_list(finder, replies, &n.children, budget);
                            rebuild_flow(n, r, Ghost(self@), Ghost(fold_list(n@.children, ctx_of(*finder, *replies), budget as nat, c1)))
                        },
                        Conv::Crash => Flow::Fault,
                    },
                    Flow::Need(q) => Flow::Need(q),
                    Flow::Fault => Flow::Fault,
                    Flow::Deep(sp) => Flow::Deep(sp),
                    Flow::Stray => Flow::Stray,
                    Flow::Invalid(sp) => Flow::Invalid(sp),
                    Flow::Failed(sp) => Flow::Failed(sp),
                }
            },
            Reply::Parsed(_) => Flow::Stray,
        }
    }

    /// Expansion of a node.
    fn fold_node(&mut self, finder: &MacroImportFinder, replies: &Vec<Reply>, n: &Node, budget: usize) -> (r: Flow<Node>)
        requires
            old(self).pos <= replies.len(),
        ensures
            node_flow(r, final(self)@, fold_node(n@, ctx_of(*finder, *replies), budget as nat, old(self)@)),
            final(self).pos <= replies.len(),
        decreases budget, n, 1nat,
    {
        proof {
            lemma_view_nodes(n.children@);
        }
        if n.kind == Kind::ECall {
            if let Some((path, name)) = self.resolve(finder, replies, n) {
                return self.fold_call(finder, replies, n, budget, path, name);
            }
        }
        if n.kind == Kind::SExpr && n.children.len() > 0 && n.children[0].kind == Kind::ECall {
            if let Some((path, name)) = self.resolve(finder, replies, &n.children[0]) {
                return self.fold_stmt_call(finder, replies, n, budget, path, name);
            }
        }
        let ghost cx = ctx_of(*finder, *replies);
        if n.kind == Kind::SFnDecl && n.children.len() == 3 {
            proof {
                lemma_view_nodes(n.children[1].children@);
            }
            self.scope.add(name_text(&n.children[0]));
            self.scope.enter();
            self.scope.add_params(&n.children[1].children);
            let ghost c1 = self@;
            assert(c1 == with_scope(old(self)@, fn_decl_scope(old(self)@.scope, n@)));
            let r = self.fold_list(finder, replies, &n.children, budget);
            match r {
                Flow::Ready(cs) => {
                    self.scope.leave();
                    Flow::Ready(make(n.kind, n.span, copy_payload(&n.payload), cs))
                },
                Flow::Need(q) => Flow::Need(q),
                Flow::Fault => Flow::Fault,
                Flow::Deep(sp) => Flow::Deep(sp),
                Flow::Stray => Flow::Stray,
                Flow::Invalid(sp) => Flow::Invalid(sp),
                Flow::Failed(sp) => Flow::Failed(sp),
            }
        } else if n.kind == Kind::EFn && n.children.len() == 3 {
            proof {
                lemma_view_nodes(n.children[1].children@);
            }
            self.scope.enter();
            if n.children[0].kind == Kind::Ident {
                self.scope.add(name_text(&n.children[0]));
            }
            self.scope.add_params(&n.children[1].children);
            let ghost c1 = self@;
            assert(c1 == with_scope(old(self)@, fn_expr_scope(old(self)@.scope, n@)));
            let r = self.fold_list(finder, replies, &n.children, budget);
            match r {
                Flow::Ready(cs) => {
                    self.scope.leave();
                    Flow::Ready(make(n.kind, n.span, copy_payload(&n.payload), cs))
                },
                Flow::Need(q) => Flow::Need(q),
                Flow::Fault => Flow::Fault,
                Flow::Deep(sp) => Flow::Deep(sp),
                Flow::Stray => Flow::Stray,
                Flow::Invalid(sp) => Flow::Invalid(sp),
                Flow::Failed(sp) => Flow::Failed(sp),
            }
        } else if n.kind == Kind::EArrow && n.children.len() == 2 {
            proof {
                lemma_view_nodes(n.children[0].children@);
            }
            self.scope.enter();
            self.scope.add_params(&n.children[0].children);
            let r = self.fold_node(finder, replies, &n.children[1], budget);
            match r {
                Flow::Ready(b) => {
                    self.scope.leave();
                    let p = copy_node(&n.children[0]);
                    Flow::Ready(make(n.kind, n.span, copy_payload(&n.payload), crate::ast::two(p, b)))
                },
                Flow::Need(q) => Flow::Need(q),
                Flow::Fault => Flow::Fault,
                Flow::Deep(sp) => Flow::Deep(sp),
                Flow::Stray => Flow::Stray,
                Flow::Invalid(sp) => Flow::Invalid(sp),
                Flow::Failed(sp) => Flow::Failed(sp),
            }
        } else if n.kind == Kind::Declarator && n.children.len() >= 1 && n.children[0].kind == Kind::PIdent {
            self.scope.add(name_text(&n.children[0]));
            let ghost c0 = self@;
            let r = self.fold_list(finder, replies, &n.children, budget);
            rebuild_flow(n, r, Ghost(self@), Ghost(fold_list(n@.children, cx, budget as nat, c0)))
        } else {
            let ghost c0 = self@;
            let r = self.fold_list(finder, replies, &n.children, budget);
            rebuild_flow(n, r, Ghost(self@), Ghost(fold_list(n@.children, cx, budget as nat, c0)))
        }
    }

    /// Expansion of a list of nodes, in order.
    fn fold_list(&mut self, finder: &MacroImportFinder, replies: &Vec<Reply>, v: &Vec<Node>, budget: usize) -> (r: Flow<Vec<Node>>)
        requires
            old(self).pos <= replies.len(),
        ensures
            list_flow(r, final(self)@, fold_list(nodes_view(*v), ctx_of(*finder, *replies), budget as nat, old(self)@)),
            final(self).pos <= replies.len(),
        decreases budget, v, 0nat,
    {
        let ghost sv = nodes_view(*v);
        let ghost c0 = self@;
        let ghost cx = ctx_of(*finder, *replies);
        proof {
            lemma_view_nodes(v@);
        }
        let mut out: Vec<Node> = Vec::new();
        assert(nodes_view(out) =~= Seq::<SpecNode>::empty());
        assert(sv.take(0) =~= Seq::<SpecNode>::empty());
        let mut i: usize = 0;
        while i < v.len()
            invariant
                i <= v.len(),
                sv == nodes_view(*v),
                sv.len() == v.len(),
                forall|j: int| 0 <= j < v.len() ==> #[trigger] sv[j] == view_node(v@[j]),
                cx == ctx_of(*finder, *replies),
                c0 == old(self)@,
                self.pos <= replies.len(),
                fold_list(sv.take(i as int), cx, budget as nat, c0) == Folded::Ready(nodes_view(out), self@),
            decreases v.len() - i,
        {
            assert(sv.take(i + 1).drop_last() =~= sv.take(i as int));
            assert(sv.take(i + 1).last() == view_node(v@[i as int]));
            let ghost cb = self@;
            let x = self.fold_node(finder, replies, &v[i], budget);
            assert(fold_list(sv.take(i + 1), cx, budget as nat, c0) == match fold_node(sv[i as int], cx, budget as nat, cb) {
                Folded::Ready(y, c2) => Folded::Ready(nodes_view(out).push(y), c2),
                other => bail(other),
            });
            match x {
                Flow::Ready(y) => {
                    push_node(&mut out, y);
                },
                Flow::Need(q) => {
                    proof {
                        lemma_fold_list_stop(sv, i + 1, cx, budget as nat, c0);
                    }
                    return Flow::Need(q);
                },
                Flow::Fault => {
                    proof {
                        lemma_fold_list_stop(sv, i + 1, cx, budget as nat, c0);
                    }
                    return Flow::Fault;
                },
                Flow::Deep(sp) => {
                    proof {
                        lemma_fold_list_stop(sv, i + 1, cx, budget as nat, c0);
                    }
                    return Flow::Deep(sp);
                },
                Flow::Stray => {
                    proof {
                        lemma_fold_list_stop(sv, i + 1, cx, budget as nat, c0);
                    }
                    return Flow::Stray;
                },
                Flow::Invalid(sp) => {
                    proof {
                        lemma_fold_list_stop(sv, i + 1, cx, budget as nat, c0);
                    }
                    return Flow::Invalid(sp);
                },
                Flow::Failed(sp) => {
                    proof {
                        lemma_fold_list_stop(sv, i + 1, cx, budget as nat, c0);
                    }
                    return Flow::Failed(sp);
                },
            }
            i = i + 1;
        }
        assert(sv.take(v.len() as int) =~= sv);
        Flow::Ready(out)
    }

    /// Expansion of a module item.
    fn fold_item(&mut self, finder: &MacroImportFinder, replies: &Vec<Reply>, item: &Node, budget: usize) -> (r: Flow<Vec<Node>>)
        requires
            old(self).pos <= replies.len(),
        ensures
            list_flow(r, final(self)@, fold_item(item@, ctx_of(*finder, *replies), budget as nat, old(self)@)),
            final(self).pos <= replies.len(),
    {
        let ghost cx = ctx_of(*finder, *replies);
        if is_macro_import_node(item) {
            let v: Vec<Node> = Vec::new();
            assert(nodes_view(v) =~= Seq::<SpecNode>::empty());
            return Flow::Ready(v);
        }
        let ghost c0 = self@;
        let x = self.fold_node(finder, replies, item, budget);
        single_flow(x, Ghost(self@), Ghost(fold_node(item@, cx, budget as nat, c0)))
    }

    /// Expansion of a module's items, in order.
    fn fold_items(&mut self, finder: &MacroImportFinder, replies: &Vec<Reply>, v: &Vec<Node>, budget: usize) -> (r: Flow<Vec<Node>>)
        requires
            old(self).pos <= replies.len(),
        ensures
            list_flow(r, final(self)@, fold_items(nodes_view(*v), ctx_of(*finder, *replies), budget as nat, old(self)@)),
            final(self).pos <= replies.len(),
    {
        let ghost sv = nodes_view(*v);
        let ghost c0 = self@;
        let ghost cx = ctx_of(*finder, *replies);
        proof {
            lemma_view_nodes(v@);
        }
        let mut out: Vec<Node> = Vec::new();
        assert(nodes_view(out) =~= Seq::<SpecNode>::empty());
        assert(sv.take(0) =~= Seq::<SpecNode>::empty());
        let mut i: usize = 0;
        while i < v.len()
            invariant
                i <= v.len(),
                sv == nodes_view(*v),
                sv.len() == v.len(),
                forall|j: int| 0 <= j < v.len() ==> #[trigger] sv[j] == view_node(v@[j]),
                cx == ctx_of(*finder, *replies),
                c0 == old(self)@,
                self.pos <= replies.len(),
                fold_items(sv.take(i as int), cx, budget as nat, c0) == Folded::Ready(nodes_view(out), self@),
            decreases v.len() - i,
        {
            assert(sv.take(i + 1).drop_last() =~= sv.take(i as int));
            assert(sv.take(i + 1).last() == view_node(v@[i as int]));
            let ghost cb = self@;
            let x = self.fold_item(finder, replies, &v[i], budget);
            assert(fold_items(sv.take(i + 1), cx, budget as nat, c0) == match fold_item(sv[i as int], cx, budget as nat, cb) {
                Folded::Ready(ys, c2) => Folded::Ready(nodes_view(out) + ys, c2),
                other => bail(other),
            });
            match x {
                Flow::Ready(ys) => {
                    crate::template::append_nodes(&mut out, ys);
                },
                Flow::Need(q) => {
                    proof {
                        lemma_fold_items_stop(sv, i + 1, cx, budget as nat, c0);
                    }
                    return Flow::Need(q);
                },
                Flow::Fault => {
                    proof {
                        lemma_fold_items_stop(sv, i + 1, cx, budget as nat, c0);
                    }
                    return Flow::Fault;
                },
                Flow::Deep(sp) => {
                    proof {
                        lemma_fold_items_stop(sv, i + 1, cx, budget as nat, c0);
                    }
                    return Flow::Deep(sp);
                },
                Flow::Stray => {
                    proof {
                        lemma_fold_items_stop(sv, i + 1, cx, budget as nat, c0);
                    }
                    return Flow::Stray;
                },
                Flow::Invalid(sp) => {
                    proof {
                        lemma_fold_items_stop(sv, i + 1, cx, budget as nat, c0);
                    }
                    return Flow::Invalid(sp);
                },
                Flow::Failed(sp) => {
                    proof {
                        lemma_fold_items_stop(sv, i + 1, cx, budget as nat, c0);
                    }
                    return Flow::Failed(sp);
                },
            }
            i = i + 1;
        }
        assert(sv.take(v.len() as int) =~= sv);
        Flow::Ready(out)
    }
}

/// One pass over a module, using the replies from `pos` on; with the result,
/// the state the pass ended in.
pub fn expand_pass(finder: &MacroImportFinder, replies: &Vec<Reply>, m: &Node, budget: usize, pos: usize) -> (r: (Flow<Node>, MacroExpander))
    requires
        pos <= replies.len(),
    ensures
        node_flow(r.0, r.1@, fold_pass(m@, ctx_of(*finder, *replies), budget as nat, pos as nat)),
        r.1.pos <= replies.len(),
{
    let mut st = MacroExpander { pos, expanded_this_pass: false, scope: Scope::new() };
    assert(st@ == start(pos as nat));
    let ghost c0 = st@;
    let items = st.fold_items(finder, replies, &m.children, budget);
    let r = rebuild_flow(m, items, Ghost(st@), Ghost(fold_items(m@.children, ctx_of(*finder, *replies), budget as nat, c0)));
    (r, st)
}

/// The outcome of expansion: a request the sandbox has not answered yet, the
/// expanded module, one of the failures of `Folded`, or `Unsettled` when
/// expansion reaches no fixed point within the passes allowed.
pub enum Expansion {
    Need(Request),
    Done(Node),
    Fault,
    Deep(Vec<Span>),
    Stray,
    Invalid(Span),
    Failed(Span),
    Unsettled,
}

pub open spec fn expansion_as(r: Expansion, e: Expanded) -> bool {
    match e {
        Expanded::Need(q) => match r {
            Expansion::Need(q2) => q2@ == q,
            _ => false,
        },
        Expanded::Done(m) => match r {
            Expansion::Done(m2) => m2@ == m,
            _ => false,
        },
        Expanded::Fault => r is Fault,
        Expanded::Deep(sp) => match r {
            Expansion::Deep(s) => s@ == sp,
            _ => false,
        },
        Expanded::Stray => r is Stray,
        Expanded::Invalid(sp) => match r {
            Expansion::Invalid(s) => s == sp,
            _ => false,
        },
        Expanded::Failed(sp) => match r {
            Expansion::Failed(s) => s == sp,
            _ => false,
        },
        Expanded::Unsettled => r is Unsettled,
    }
}

/// `expand_macros`: the expansion of a module given the sandbox's replies so
/// far, in the order of its requests, with replacements nested at most
/// `budget` deep.
pub fn expand_macros(module: &Node, replies: &Vec<Reply>, budget: usize) -> (r: Expansion)
    ensures
        expansion_as(r, expansion(module@, replies_view(*replies), budget as nat)),
{
    let finder = MacroImportFinder::find(module);
    let ghost cx = ctx_of(finder, *replies);
    assert(cx == SpecCtx {
        macros: macro_bindings(module@.children),
        namespaces: namespace_bindings(module@.children),
        replies: replies_view(*replies),
    });
    let mut m = copy_node(module);
    let mut pos: usize = 0;
    let mut depth: usize = 0;
    loop
        invariant
            depth < MAX_EXPANSION_DEPTH,
            pos <= replies.len(),
            cx == ctx_of(finder, *replies),
            expand_from(m@, cx, budget as nat, pos as nat, depth as nat) == expansion(module@, replies_view(*replies), budget as nat),
        decreases MAX_EXPANSION_DEPTH - depth,
    {
        let (r, st) = expand_pass(&finder, replies, &m, budget, pos);
        match r {
            Flow::Ready(m2) => {
                if !st.expanded_this_pass {
                    return Expansion::Done(m2);
                }
                if depth + 1 >= MAX_EXPANSION_DEPTH {
                    return Expansion::Unsettled;
                }
                m = m2;
                pos = st.pos;
                depth = depth + 1;
            },
            Flow::Need(q) => {
                return Expansion::Need(q);
            },
            Flow::Fault => {
                return Expansion::Fault;
            },
            Flow::Deep(sp) => {
                return Expansion::Deep(sp);
            },
            Flow::Stray => {
                return Expansion::Stray;
            },
            Flow::Failed(sp) => {
                return Expansion::Failed(sp);
            },
            Flow::Invalid(sp) => {
                return Expansion::Invalid(sp);
            },
        }
    }
}

// ---------------------------------------------------------------------------
// Macro modules to load

/// A list with later repetitions removed.
pub open spec fn dedup(s: Seq<Seq<char>>) -> Seq<Seq<char>>
    decreases s.len(),
{
    if s.len() == 0 {
        Seq::empty()
    } else {
        let d = dedup(s.drop_last());
        if d.contains(s.last()) {
            d
        } else {
            d.push(s.last())
        }
    }
}

/// The macro modules a module's bindings come from, each once.
pub open spec fn module_paths(
    macros: Seq<(Seq<char>, Seq<char>, Seq<char>)>,
    namespaces: Seq<(Seq<char>, Seq<char>)>,
) -> Seq<Seq<char>> {
    dedup(macros.map_values(|b: (Seq<char>, Seq<char>, Seq<char>)| b.1) + namespaces.map_values(|b: (Seq<char>, Seq<char>)| b.1))
}

pub open spec fn text_views(v: Seq<String>) -> Seq<Seq<char>> {
    v.map_values(|s: String| s@)
}

fn push_unique(out: &mut Vec<String>, p: &String)
    ensures
        text_views(final(out)@) == if text_views(old(out)@).contains(p@) {
            text_views(old(out)@)
        } else {
            text_views(old(out)@).push(p@)
        },
{
    let ghost tv = text_views(out@);
    let mut i: usize = 0;
    while i < out.len()
        invariant
            i <= out.len(),
            tv == text_views(out@),
            tv.len() == out.len(),
            forall|j: int| 0 <= j < i ==> tv[j] != p@,
        decreases out.len() - i,
    {
        assert(tv[i as int] == out@[i as int]@);
        if out[i] == *p {
            assert(tv.contains(p@));
            return;
        }
        i = i + 1;
    }
    assert(!tv.contains(p@));
    out.push(p.clone());
    assert(text_views(out@) =~= tv.push(p@));
}

impl MacroImportFinder {
    /// The macro modules to load before expansion, each once, in the order
    /// their bindings come.
    pub fn module_paths(&self) -> (r: Vec<String>)
        ensures
            text_views(r@) == module_paths(self.macros(), self.namespaces()),
    {
        let ghost all = self.macros().map_values(|b: (Seq<char>, Seq<char>, Seq<char>)| b.1)
            + self.namespaces().map_values(|b: (Seq<char>, Seq<char>)| b.1);
        let ghost k = self.macro_imports.len();
        let mut out: Vec<String> = Vec::new();
        assert(text_views(out@) =~= dedup(all.take(0)));
        let mut i: usize = 0;
        while i < self.macro_imports.len()
            invariant
                i <= self.macro_imports.len(),
                k == self.macro_imports.len(),
                all == self.macros().map_values(|b: (Seq<char>, Seq<char>, Seq<char>)| b.1)
                    + self.namespaces().map_values(|b: (Seq<char>, Seq<char>)| b.1),
                all.len() == self.macro_imports.len() + self.namespace_imports.len(),
                text_views(out@) == dedup(all.take(i as int)),
            decreases self.macro_imports.len() - i,
        {
            assert(all[i as int] == self.macro_imports@[i as int].path@);
            assert(all.take(i + 1).drop_last() =~= all.take(i as int));
            push_unique(&mut out, &self.macro_imports[i].path);
            i = i + 1;
        }
        let mut j: usize = 0;
        while j < self.namespace_imports.len()
            invariant
                j <= self.namespace_imports.len(),
                k == self.macro_imports.len(),
                all == self.macros().map_values(|b: (Seq<char>, Seq<char>, Seq<char>)| b.1)
                    + self.namespaces().map_values(|b: (Seq<char>, Seq<char>)| b.1),
                all.len() == self.macro_imports.len() + self.namespace_imports.len(),
                text_views(out@) == dedup(all.take(k + j)),
            decreases self.namespace_imports.len() - j,
        {
            assert(all[k + j] == self.namespace_imports@[j as int].path@);
            assert(all.take(k + j + 1).drop_last() =~= all.take(k + j));
            push_unique(&mut out, &self.namespace_imports[j].path);
            j = j + 1;
        }
        assert(all.take(k + j) =~= all);
        out
    }
}

/// Each macro module is loaded once, and every module a binding comes from is loaded.
pub proof fn lemma_dedup(s: Seq<Seq<char>>)
    ensures
        dedup(s).no_duplicates(),
        forall|x: Seq<char>| dedup(s).contains(x) <==> s.contains(x),
    decreases s.len(),
{
    broadcast use vstd::seq_lib::group_seq_properties;
    if s.len() > 0 {
        let d = dedup(s.drop_last());
        lemma_dedup(s.drop_last());
        assert(s =~= s.drop_last().push(s.last()));
        assert forall|x: Seq<char>| dedup(s).contains(x) <==> s.contains(x) by {
            assert(s.contains(x) <==> s.drop_last().push(s.last()).contains(x));
        }
        if !d.contains(s.last()) {
            assert forall|a: int, b: int| 0 <= a < d.push(s.last()).len() && 0 <= b < d.push(s.last()).len() && a != b
                implies d.push(s.last())[a] != d.push(s.last())[b] by {
                if b == d.len() {
                    assert(d[a] == d.push(s.last())[a]);
                } else if a == d.len() {
                    assert(d[b] == d.push(s.last())[b]);
                }
            }
        }
    }
}

// ---------------------------------------------------------------------------
// Laws of expansion

/// What syntax a macro result turns into is never an import.
proof fn lemma_from_json_not_import(j: SpecJson, m: FromJson, sp: Span)
    requires
        m == FromJson::Expr || m == FromJson::Stmt,
    ensures
        from_json(j, m, sp) matches Conv::Done(e) ==> e.kind != Kind::Import,
{
    assert(json_arrow(j, sp) matches Conv::Done(e) ==> e.kind != Kind::Import);
    assert(json_binary(j, sp) matches Conv::Done(e) ==> e.kind != Kind::Import);
    assert(json_unary(j, sp) matches Conv::Done(e) ==> e.kind != Kind::Import);
    assert(json_member(j, sp) matches Conv::Done(e) ==> e.kind != Kind::Import);
    assert(json_call(j, sp) matches Conv::Done(e) ==> e.kind != Kind::Import);
    assert(json_var_decl(j, sp) matches Conv::Done(e) ==> e.kind != Kind::Import);
    if m == FromJson::Expr {
        assert(from_json(j, FromJson::Expr, sp) matches Conv::Done(e) ==> e.kind != Kind::Import);
    } else {
        assert(from_json(j, FromJson::Stmt, sp) matches Conv::Done(e) ==> e.kind != Kind::Import);
    }
}

/// Expanding a node keeps it an import from a macro module only if it was one.
proof fn lemma_fold_root(n: SpecNode, cx: SpecCtx, budget: nat, cur: Cursor)
    ensures
        fold_node(n, cx, budget, cur) matches Folded::Ready(x, c) ==> (is_macro_import(x) ==> is_macro_import(n)),
    decreases budget, n,
{
    if n.kind == Kind::ECall && resolve_call(n, cx, cur.scope) is Some {
        if let Some(SpecReply::Called(Some(res))) = reply_at(cx.replies, cur.pos) {
            if let Folded::Ready(j, c1) = handle_result(res, cx, consumed(cur), n.span) {
                lemma_from_json_not_import(j, FromJson::Expr, n.span);
                if let Conv::Done(e) = from_json(j, FromJson::Expr, n.span) {
                    if budget > 0 {
                        lemma_fold_root(e, cx, (budget - 1) as nat, marked(c1));
                    }
                }
            }
        }
    } else if is_stmt_call(n, cx, cur.scope) {
        let call = n.children[0];
        if let Some(SpecReply::Called(Some(res))) = reply_at(cx.replies, cur.pos) {
            if let Folded::Ready(j, c1) = handle_result(res, cx, consumed(cur), call.span) {
                lemma_from_json_not_import(j, FromJson::Stmt, n.span);
                if let Conv::Done(st) = from_json(j, FromJson::Stmt, n.span) {
                    if budget > 0 {
                        lemma_fold_root(st, cx, (budget - 1) as nat, marked(c1));
                    }
                }
            }
        }
    }
}

/// The items of a pass's result hold no import from a macro module.
proof fn lemma_fold_items_no_macro_import(s: Seq<SpecNode>, cx: SpecCtx, budget: nat, cur: Cursor)
    ensures
        fold_items(s, cx, budget, cur) matches Folded::Ready(xs, c) ==>
            forall|i: int| 0 <= i < xs.len() ==> !is_macro_import(#[trigger] xs[i]),
    decreases s.len(),
{
    if s.len() > 0 {
        lemma_fold_items_no_macro_import(s.drop_last(), cx, budget, cur);
        if let Folded::Ready(xs, c1) = fold_items(s.drop_last(), cx, budget, cur) {
            let item = s.last();
            if !is_macro_import(item) {
                lemma_fold_root(item, cx, budget, c1);
            }
        }
    }
}

proof fn lemma_expand_from_no_macro_import(m: SpecNode, cx: SpecCtx, budget: nat, pos: nat, depth: nat)
    ensures
        expand_from(m, cx, budget, pos, depth) matches Expanded::Done(out) ==>
            forall|i: int| 0 <= i < out.children.len() ==> !is_macro_import(#[trigger] out.children[i]),
    decreases MAX_EXPANSION_DEPTH - depth,
{
    lemma_fold_items_no_macro_import(m.children, cx, budget, start(pos));
    if let Folded::Ready(m2, c) = fold_pass(m, cx, budget, pos) {
        if c.expanded && depth + 1 < MAX_EXPANSION_DEPTH {
            lemma_expand_from_no_macro_import(m2, cx, budget, c.pos, depth + 1);
        }
    }
}

/// Imports from macro modules are compile-time only: the module that
/// expansion yields imports nothing from a macro module.
pub proof fn lemma_expansion_drops_macro_imports(m: SpecNode, replies: Seq<SpecReply>, budget: nat)
    ensures
        expansion(m, replies, budget) matches Expanded::Done(out) ==>
            forall|i: int| 0 <= i < out.children.len() ==> !is_macro_import(#[trigger] out.children[i]),
{
    lemma_expand_from_no_macro_import(
        m,
        SpecCtx { macros: macro_bindings(m.children), namespaces: namespace_bindings(m.children), replies },
        budget,
        0,
        0,
    );
}

/// The items of a module without its imports from macro modules.
pub open spec fn strip_macro_imports(s: Seq<SpecNode>) -> Seq<SpecNode>
    decreases s.len(),
{
    if s.len() == 0 {
        Seq::empty()
    } else {
        strip_macro_imports(s.drop_last()) + if is_macro_import(s.last()) { Seq::empty() } else { seq![s.last()] }
    }
}

/// The import declarations among a list of items, in order.
pub open spec fn imports_of(s: Seq<SpecNode>) -> Seq<SpecImport>
    decreases s.len(),
{
    if s.len() == 0 {
        Seq::empty()
    } else {
        imports_of(s.drop_last()) + match import_of(s.last()) {
            Some(d) => seq![d],
            None => Seq::empty(),
        }
    }
}

proof fn lemma_imports_of_append(a: Seq<SpecNode>, b: Seq<SpecNode>)
    ensures
        imports_of(a + b) == imports_of(a) + imports_of(b),
    decreases b.len(),
{
    if b.len() == 0 {
        assert(a + b =~= a);
        assert(imports_of(a) + imports_of(b) =~= imports_of(a));
    } else {
        lemma_imports_of_append(a, b.drop_last());
        assert((a + b).drop_last() =~= a + b.drop_last());
        assert((a + b).last() == b.last());
        assert(imports_of(a + b) =~= imports_of(a) + imports_of(b));
    }
}

proof fn lemma_imports_of_one(x: SpecNode)
    ensures
        imports_of(seq![x]) == match import_of(x) {
            Some(d) => seq![d],
            None => Seq::<SpecImport>::empty(),
        },
{
    let one = seq![x];
    assert(one.drop_last() =~= Seq::<SpecNode>::empty());
    assert(one.last() == x);
    assert(imports_of(one.drop_last()) == Seq::<SpecImport>::empty());
    match import_of(x) {
        Some(d) => assert(Seq::<SpecImport>::empty() + seq![d] =~= seq![d]),
        None => assert(Seq::<SpecImport>::empty() + Seq::<SpecImport>::empty() =~= Seq::<SpecImport>::empty()),
    }
}

/// Expanding a node keeps its import declaration, and gives none to a node
/// that had none.
proof fn lemma_fold_keeps_import(n: SpecNode, cx: SpecCtx, budget: nat, cur: Cursor)
    ensures
        fold_node(n, cx, budget, cur) matches Folded::Ready(x, c) ==> import_of(x) == import_of(n),
    decreases budget, n,
{
    if n.kind == Kind::ECall && resolve_call(n, cx, cur.scope) is Some {
        if let Some(SpecReply::Called(Some(res))) = reply_at(cx.replies, cur.pos) {
            if let Folded::Ready(j, c1) = handle_result(res, cx, consumed(cur), n.span) {
                lemma_from_json_not_import(j, FromJson::Expr, n.span);
                if let Conv::Done(e) = from_json(j, FromJson::Expr, n.span) {
                    if budget > 0 {
                        lemma_fold_keeps_import(e, cx, (budget - 1) as nat, marked(c1));
                    }
                }
            }
        }
    } else if is_stmt_call(n, cx, cur.scope) {
        let call = n.children[0];
        if let Some(SpecReply::Called(Some(res))) = reply_at(cx.replies, cur.pos) {
            if let Folded::Ready(j, c1) = handle_result(res, cx, consumed(cur), call.span) {
                lemma_from_json_not_import(j, FromJson::Stmt, n.span);
                if let Conv::Done(st) = from_json(j, FromJson::Stmt, n.span) {
                    if budget > 0 {
                        lemma_fold_keeps_import(st, cx, (budget - 1) as nat, marked(c1));
                    }
                }
            }
        }
    }
}

proof fn lemma_fold_items_imports(s: Seq<SpecNode>, cx: SpecCtx, budget: nat, cur: Cursor)
    ensures
        fold_items(s, cx, budget, cur) matches Folded::Ready(xs, c) ==>
            imports_of(xs) == imports_of(strip_macro_imports(s)),
    decreases s.len(),
{
    if s.len() > 0 {
        lemma_fold_items_imports(s.drop_last(), cx, budget, cur);
        if let Folded::Ready(xs1, c1) = fold_items(s.drop_last(), cx, budget, cur) {
            let item = s.last();
            let rest = if is_macro_import(item) { Seq::<SpecNode>::empty() } else { seq![item] };
            lemma_imports_of_append(strip_macro_imports(s.drop_last()), rest);
            if let Folded::Ready(ys, c2) = fold_item(item, cx, budget, c1) {
                lemma_imports_of_append(xs1, ys);
                if is_macro_import(item) {
                    assert(ys =~= Seq::<SpecNode>::empty());
                } else {
                    lemma_fold_keeps_import(item, cx, budget, c1);
                    let x = fold_node(item, cx, budget, c1)->Ready_0;
                    assert(ys == seq![x]);
                    lemma_imports_of_one(x);
                    lemma_imports_of_one(item);
                }
            }
        }
    }
}

proof fn lemma_strip_without_macro_imports(s: Seq<SpecNode>)
    requires
        forall|i: int| 0 <= i < s.len() ==> !is_macro_import(#[trigger] s[i]),
    ensures
        strip_macro_imports(s) == s,
    decreases s.len(),
{
    if s.len() > 0 {
        assert forall|i: int| 0 <= i < s.drop_last().len() implies !is_macro_import(#[trigger] s.drop_last()[i]) by {
            assert(s.drop_last()[i] == s[i]);
        }
        lemma_strip_without_macro_imports(s.drop_last());
        assert(!is_macro_import(s[s.len() - 1]));
        assert(s.drop_last() + seq![s.last()] =~= s);
    }
}

proof fn lemma_expand_from_imports(m: SpecNode, cx: SpecCtx, budget: nat, pos: nat, depth: nat)
    ensures
        expand_from(m, cx, budget, pos, depth) matches Expanded::Done(out) ==>
            imports_of(out.children) == imports_of(strip_macro_imports(m.children)),
    decreases MAX_EXPANSION_DEPTH - depth,
{
    lemma_fold_items_imports(m.children, cx, budget, start(pos));
    lemma_fold_items_no_macro_import(m.children, cx, budget, start(pos));
    if let Folded::Ready(m2, c) = fold_pass(m, cx, budget, pos) {
        if c.expanded && depth + 1 < MAX_EXPANSION_DEPTH {
            lemma_expand_from_imports(m2, cx, budget, c.pos, depth + 1);
            lemma_strip_without_macro_imports(m2.children);
        }
    }
}

/// Expansion keeps every import that is not from a macro module, in its
/// order, and adds none: the imports of the module it yields are those of the
/// module, its imports from macro modules left out.
pub proof fn lemma_expansion_keeps_imports(m: SpecNode, replies: Seq<SpecReply>, budget: nat)
    ensures
        expansion(m, replies, budget) matches Expanded::Done(out) ==>
            imports_of(out.children) == imports_of(strip_macro_imports(m.children)),
{
    lemma_expand_from_imports(
        m,
        SpecCtx { macros: macro_bindings(m.children), namespaces: namespace_bindings(m.children), replies },
        budget,
        0,
        0,
    );
}

proof fn lemma_fold_unbound(n: SpecNode, cx: SpecCtx, budget: nat, cur: Cursor)
    requires
        cx.macros.len() == 0,
        cx.namespaces.len() == 0,
    ensures
        fold_node(n, cx, budget, cur) matches Folded::Ready(x, c) && x == n && c.pos == cur.pos
            && c.expanded == cur.expanded,
    decreases budget, n,
{
    assert(resolve_call(n, cx, cur.scope) is None);
    if n.kind == Kind::SFnDecl && n.children.len() == 3 {
        lemma_fold_list_unbound(n.children, cx, budget, with_scope(cur, fn_decl_scope(cur.scope, n)));
    } else if n.kind == Kind::EFn && n.children.len() == 3 {
        lemma_fold_list_unbound(n.children, cx, budget, with_scope(cur, fn_expr_scope(cur.scope, n)));
    } else if n.kind == Kind::EArrow && n.children.len() == 2 {
        let sc = add_params(scope_enter(cur.scope), n.children[0].children);
        lemma_fold_unbound(n.children[1], cx, budget, with_scope(cur, sc));
        assert(seq![n.children[0], n.children[1]] =~= n.children);
    } else if declares_local(n) {
        lemma_fold_list_unbound(n.children, cx, budget, with_scope(cur, scope_add(cur.scope, name_of(n.children[0]))));
    } else {
        lemma_fold_list_unbound(n.children, cx, budget, cur);
    }
}

proof fn lemma_fold_list_unbound(s: Seq<SpecNode>, cx: SpecCtx, budget: nat, cur: Cursor)
    requires
        cx.macros.len() == 0,
        cx.namespaces.len() == 0,
    ensures
        fold_list(s, cx, budget, cur) matches Folded::Ready(xs, c) && xs == s && c.pos == cur.pos
            && c.expanded == cur.expanded,
    decreases budget, s,
{
    if s.len() > 0 {
        lemma_fold_list_unbound(s.drop_last(), cx, budget, cur);
        let c1 = fold_list(s.drop_last(), cx, budget, cur)->Ready_1;
        lemma_fold_unbound(s.last(), cx, budget, c1);
        assert(s.drop_last().push(s.last()) =~= s);
    }
}

proof fn lemma_fold_items_unbound(s: Seq<SpecNode>, cx: SpecCtx, budget: nat, cur: Cursor)
    requires
        cx.macros.len() == 0,
        cx.namespaces.len() == 0,
    ensures
        fold_items(s, cx, budget, cur) matches Folded::Ready(xs, c) && xs == strip_macro_imports(s)
            && c.pos == cur.pos && c.expanded == cur.expanded,
    decreases s.len(),
{
    if s.len() > 0 {
        lemma_fold_items_unbound(s.drop_last(), cx, budget, cur);
        let c1 = fold_items(s.drop_last(), cx, budget, cur)->Ready_1;
        assert(resolve_call(child(s.last(), 0), cx, c1.scope) is None);
        lemma_fold_unbound(s.last(), cx, budget, c1);
    }
}

/// A module that binds no macro comes out of expansion as it went in, but
/// for its imports from macro modules, which are dropped; the sandbox is
/// asked nothing.
pub proof fn lemma_expansion_without_macros(m: SpecNode, replies: Seq<SpecReply>, budget: nat)
    requires
        macro_bindings(m.children).len() == 0,
        namespace_bindings(m.children).len() == 0,
    ensures
        expansion(m, replies, budget) == Expanded::Done(snode(m.kind, m.span, m.payload, strip_macro_imports(m.children))),
{
    let cx = SpecCtx { macros: macro_bindings(m.children), namespaces: namespace_bindings(m.children), replies };
    lemma_fold_items_unbound(m.children, cx, budget, start(0));
}

/// Runtime-local names shadow unqualified macro bindings: a call of a name
/// bound in scope is no macro call.
pub proof fn lemma_local_shadows_macro(call: SpecNode, cx: SpecCtx, sc: Seq<Seq<Seq<char>>>)
    requires
        child(call, 0).kind == Kind::EIdent,
        scope_has(sc, name_of(child(call, 0))),
    ensures
        resolve_call(call, cx, sc) is None,
{
}

/// Qualified macro references are not shadowed by locals: what a call of a
/// namespace member resolves to does not depend on the scope.
pub proof fn lemma_qualified_not_shadowed(call: SpecNode, cx: SpecCtx, sc1: Seq<Seq<Seq<char>>>, sc2: Seq<Seq<Seq<char>>>)
    requires
        child(call, 0).kind == Kind::EMember,
    ensures
        resolve_call(call, cx, sc1) == resolve_call(call, cx, sc2),
{
}

proof fn lemma_scope_add_keeps(sc: Seq<Seq<Seq<char>>>, x: Seq<char>, y: Seq<char>)
    requires
        sc.len() > 0,
    ensures
        scope_has(scope_add(sc, x), x),
        scope_has(sc, y) ==> scope_has(scope_add(sc, x), y),
        scope_add(sc, x).len() == sc.len(),
{
    let s2 = scope_add(sc, x);
    let last = sc.len() - 1;
    if sc.last().contains(x) {
        let j = choose|j: int| 0 <= j < sc.last().len() && sc.last()[j] == x;
        assert(s2[last][j] == x);
    } else {
        assert(s2[last][sc[last].len() as int] == x);
    }
    if scope_has(sc, y) {
        let (i, j) = choose|i: int, j: int| 0 <= i < sc.len() && 0 <= j < sc[i].len() && #[trigger] sc[i][j] == y;
        assert(s2[i][j] == y);
    }
}

/// Binding a name keeps each frame of the scope free of repeated names.
pub proof fn lemma_scope_add_distinct(sc: Seq<Seq<Seq<char>>>, x: Seq<char>)
    requires
        forall|i: int| 0 <= i < sc.len() ==> (#[trigger] sc[i]).no_duplicates(),
    ensures
        forall|i: int| 0 <= i < scope_add(sc, x).len() ==> (#[trigger] scope_add(sc, x)[i]).no_duplicates(),
{
    let s2 = scope_add(sc, x);
    if sc.len() > 0 && !sc.last().contains(x) {
        let f = sc.last().push(x);
        assert forall|a: int, b: int| 0 <= a < f.len() && 0 <= b < f.len() && a != b implies f[a] != f[b] by {
            if a < sc.last().len() && b < sc.last().len() {
                assert(sc[sc.len() - 1].no_duplicates());
            } else if a < sc.last().len() {
                assert(sc.last().contains(f[a]));
            } else {
                assert(sc.last().contains(f[b]));
            }
        }
        assert forall|i: int| 0 <= i < s2.len() implies (#[trigger] s2[i]).no_duplicates() by {
            if i == sc.len() - 1 {
                assert(s2[i] == f);
            } else {
                assert(s2[i] == sc[i]);
            }
        }
    }
}

/// Every parameter that is a plain identifier is bound by `add_params`.
pub proof fn lemma_params_bound(sc: Seq<Seq<Seq<char>>>, ps: Seq<SpecNode>, i: int)
    requires
        sc.len() > 0,
        0 <= i < ps.len(),
        ps[i].kind == Kind::PIdent,
    ensures
        scope_has(add_params(sc, ps), name_of(ps[i])),
        add_params(sc, ps).len() == sc.len(),
    decreases ps.len(),
{
    lemma_params_len(sc, ps.drop_last());
    if i < ps.len() - 1 {
        lemma_params_bound(sc, ps.drop_last(), i);
        assert(ps.drop_last()[i] == ps[i]);
        if let Some(x) = param_binding(ps.last()) {
            lemma_scope_add_keeps(add_params(sc, ps.drop_last()), x, name_of(ps[i]));
        }
    } else {
        lemma_scope_add_keeps(add_params(sc, ps.drop_last()), name_of(ps.last()), name_of(ps[i]));
    }
}

proof fn lemma_params_len(sc: Seq<Seq<Seq<char>>>, ps: Seq<SpecNode>)
    ensures
        add_params(sc, ps).len() == sc.len(),
    decreases ps.len(),
{
    if ps.len() > 0 {
        lemma_params_len(sc, ps.drop_last());
    }
}

/// A parameter shadows a macro of the same name in the function's body
/// (`function f(unless) { return unless(x); }` calls no macro).
pub proof fn lemma_parameter_shadows_macro(f: SpecNode, sc: Seq<Seq<Seq<char>>>, cx: SpecCtx, i: int, call: SpecNode)
    requires
        (f.kind == Kind::SFnDecl || f.kind == Kind::EFn) && f.children.len() == 3,
        0 <= i < f.children[1].children.len(),
        f.children[1].children[i].kind == Kind::PIdent,
        child(call, 0).kind == Kind::EIdent,
        name_of(child(call, 0)) == name_of(f.children[1].children[i]),
    ensures
        resolve_call(call, cx, if f.kind == Kind::SFnDecl { fn_decl_scope(sc, f) } else { fn_expr_scope(sc, f) }) is None,
{
    let ps = f.children[1].children;
    if f.kind == Kind::SFnDecl {
        lemma_params_bound(scope_enter(scope_add(sc, name_of(f.children[0]))), ps, i);
    } else {
        let sc1 = scope_enter(sc);
        let sc2 = if f.children[0].kind == Kind::Ident { scope_add(sc1, name_of(f.children[0])) } else { sc1 };
        lemma_params_bound(sc2, ps, i);
    }
}

/// An arrow function's parameter shadows a macro of the same name in its body.
pub proof fn lemma_arrow_parameter_shadows_macro(f: SpecNode, sc: Seq<Seq<Seq<char>>>, cx: SpecCtx, i: int, call: SpecNode)
    requires
        f.kind == Kind::EArrow && f.children.len() == 2,
        0 <= i < f.children[0].children.len(),
        f.children[0].children[i].kind == Kind::PIdent,
        child(call, 0).kind == Kind::EIdent,
        name_of(child(call, 0)) == name_of(f.children[0].children[i]),
    ensures
        resolve_call(call, cx, add_params(scope_enter(sc), f.children[0].children)) is None,
{
    lemma_params_bound(scope_enter(sc), f.children[0].children, i);
}

/// A local variable shadows a macro of the same name inside a function: from
/// its declarator on, a call of that name is no macro call.
pub proof fn lemma_local_variable_shadows_macro(d: SpecNode, sc: Seq<Seq<Seq<char>>>, cx: SpecCtx, call: SpecNode)
    requires
        sc.len() > 0,
        declares_local(d),
        child(call, 0).kind == Kind::EIdent,
        name_of(child(call, 0)) == name_of(d.children[0]),
    ensures
        resolve_call(call, cx, scope_add(sc, name_of(d.children[0]))) is None,
{
    lemma_scope_add_keeps(sc, name_of(d.children[0]), name_of(d.children[0]));
}

/// Expansion is outside-in: a macro call goes to the sandbox before anything
/// inside it is expanded.
pub proof fn lemma_outside_in(n: SpecNode, cx: SpecCtx, budget: nat, cur: Cursor, path: Seq<char>, name: Seq<char>)
    requires
        n.kind == Kind::ECall,
        resolve_call(n, cx, cur.scope) == Some((path, name)),
        cur.pos >= cx.replies.len(),
    ensures
        fold_node(n, cx, budget, cur) == Folded::<SpecNode>::Need(SpecRequest::Call { path, name, args: call_args_json(n) }),
{
}

/// A replacement is expanded again: when the sandbox answers a macro call
/// with syntax, the result of the call is the expansion of that syntax, and a
/// nesting too deep met there has the call at the front of its stack.
pub proof fn lemma_replacement_expanded(n: SpecNode, cx: SpecCtx, budget: nat, cur: Cursor, res: SpecJson, e: SpecNode)
    requires
        n.kind == Kind::ECall,
        resolve_call(n, cx, cur.scope) is Some,
        reply_at(cx.replies, cur.pos) == Some(SpecReply::Called(Some(res))),
        template_parts(res) is None,
        from_json(res, FromJson::Expr, n.span) == Conv::Done(e),
        budget > 0,
    ensures
        fold_node(n, cx, budget, cur) == within(n.span, fold_node(e, cx, (budget - 1) as nat, marked(consumed(cur)))),
        within(n.span, fold_node(e, cx, (budget - 1) as nat, marked(consumed(cur)))) is Ready
            <==> fold_node(e, cx, (budget - 1) as nat, marked(consumed(cur))) is Ready,
{
}

/// Expansion reaches a fixed point: a pass that expands no macro ends it.
pub proof fn lemma_fixed_point(m: SpecNode, cx: SpecCtx, budget: nat, pos: nat, depth: nat)
    ensures
        fold_pass(m, cx, budget, pos) matches Folded::Ready(m2, c) ==>
            (!c.expanded ==> expand_from(m, cx, budget, pos, depth) == Expanded::Done(m2)),
{
}

/// Expansion stops at the last pass allowed: if that pass still expands a
/// macro, expansion fails as unsettled.
pub proof fn lemma_last_pass_final(m: SpecNode, cx: SpecCtx, budget: nat, pos: nat)
    ensures
        fold_pass(m, cx, budget, pos) matches Folded::Ready(m2, c) ==>
            expand_from(m, cx, budget, pos, (MAX_EXPANSION_DEPTH - 1) as nat)
                == if c.expanded { Expanded::Unsettled } else { Expanded::Done(m2) },
{
}

/// Of two imports of the same local name, the later one counts.
pub proof fn lemma_later_import_wins(bs: Seq<(Seq<char>, Seq<char>, Seq<char>)>, b: (Seq<char>, Seq<char>, Seq<char>))
    ensures
        lookup_macro(bs.push(b), b.0) == Some((b.1, b.2)),
{
    assert(bs.push(b).last() == b);
}

/// The context with more replies after those it has.
pub open spec fn extended(cx: SpecCtx, extra: Seq<SpecReply>) -> SpecCtx {
    SpecCtx { macros: cx.macros, namespaces: cx.namespaces, replies: cx.replies + extra }
}

proof fn lemma_reply_at_ext(cx: SpecCtx, extra: Seq<SpecReply>, pos: nat)
    requires
        pos < cx.replies.len(),
    ensures
        reply_at(extended(cx, extra).replies, pos) == reply_at(cx.replies, pos),
{
}

proof fn lemma_handle_ext(res: SpecJson, cx: SpecCtx, extra: Seq<SpecReply>, cur: Cursor, site: Span)
    ensures
        !(handle_result(res, cx, cur, site) is Need) ==>
            handle_result(res, extended(cx, extra), cur, site) == handle_result(res, cx, cur, site),
{
    if template_parts(res) is Some && cur.pos < cx.replies.len() {
        lemma_reply_at_ext(cx, extra, cur.pos);
    }
}

proof fn lemma_fold_node_ext(n: SpecNode, cx: SpecCtx, extra: Seq<SpecReply>, budget: nat, cur: Cursor)
    ensures
        !(fold_node(n, cx, budget, cur) is Need) ==>
            fold_node(n, extended(cx, extra), budget, cur) == fold_node(n, cx, budget, cur),
    decreases budget, n,
{
    let ex = extended(cx, extra);
    assert(resolve_call(n, ex, cur.scope) == resolve_call(n, cx, cur.scope));
    if n.kind == Kind::ECall && resolve_call(n, cx, cur.scope) is Some {
        if cur.pos < cx.replies.len() {
            lemma_reply_at_ext(cx, extra, cur.pos);
            if let Some(SpecReply::Called(Some(res))) = reply_at(cx.replies, cur.pos) {
                lemma_handle_ext(res, cx, extra, consumed(cur), n.span);
                if let Folded::Ready(j, c1) = handle_result(res, cx, consumed(cur), n.span) {
                    if let Conv::Done(e) = from_json(j, FromJson::Expr, n.span) {
                        if budget > 0 {
                            lemma_fold_node_ext(e, cx, extra, (budget - 1) as nat, marked(c1));
                        }
                    }
                }
            }
        }
    } else if is_stmt_call(n, cx, cur.scope) {
        let call = n.children[0];
        assert(resolve_call(call, ex, cur.scope) == resolve_call(call, cx, cur.scope));
        assert(is_stmt_call(n, ex, cur.scope));
        if cur.pos < cx.replies.len() {
            lemma_reply_at_ext(cx, extra, cur.pos);
            if let Some(SpecReply::Called(Some(res))) = reply_at(cx.replies, cur.pos) {
                lemma_handle_ext(res, cx, extra, consumed(cur), call.span);
                if let Folded::Ready(j, c1) = handle_result(res, cx, consumed(cur), call.span) {
                    match from_json(j, FromJson::Stmt, n.span) {
                        Conv::Done(st) => {
                            if budget > 0 {
                                lemma_fold_node_ext(st, cx, extra, (budget - 1) as nat, marked(c1));
                            }
                        },
                        Conv::Fail => lemma_fold_list_ext(n.children, cx, extra, budget, c1),
                        _ => {},
                    }
                }
            }
        }
    } else if n.kind == Kind::SFnDecl && n.children.len() == 3 {
        lemma_fold_list_ext(n.children, cx, extra, budget, with_scope(cur, fn_decl_scope(cur.scope, n)));
    } else if n.kind == Kind::EFn && n.children.len() == 3 {
        lemma_fold_list_ext(n.children, cx, extra, budget, with_scope(cur, fn_expr_scope(cur.scope, n)));
    } else if n.kind == Kind::EArrow && n.children.len() == 2 {
        let sc = add_params(scope_enter(cur.scope), n.children[0].children);
        lemma_fold_node_ext(n.children[1], cx, extra, budget, with_scope(cur, sc));
    } else if declares_local(n) {
        lemma_fold_list_ext(n.children, cx, extra, budget, with_scope(cur, scope_add(cur.scope, name_of(n.children[0]))));
    } else {
        lemma_fold_list_ext(n.children, cx, extra, budget, cur);
    }
}

proof fn lemma_fold_list_ext(s: Seq<SpecNode>, cx: SpecCtx, extra: Seq<SpecReply>, budget: nat, cur: Cursor)
    ensures
        !(fold_list(s, cx, budget, cur) is Need) ==>
            fold_list(s, extended(cx, extra), budget, cur) == fold_list(s, cx, budget, cur),
    decreases budget, s,
{
    if s.len() > 0 {
        lemma_fold_list_ext(s.drop_last(), cx, extra, budget, cur);
        if let Folded::Ready(xs, c1) = fold_list(s.drop_last(), cx, budget, cur) {
            lemma_fold_node_ext(s.last(), cx, extra, budget, c1);
        }
    }
}

proof fn lemma_fold_item_ext(item: SpecNode, cx: SpecCtx, extra: Seq<SpecReply>, budget: nat, cur: Cursor)
    ensures
        !(fold_item(item, cx, budget, cur) is Need) ==>
            fold_item(item, extended(cx, extra), budget, cur) == fold_item(item, cx, budget, cur),
{
    if !is_macro_import(item) {
        lemma_fold_node_ext(item, cx, extra, budget, cur);
    }
}

proof fn lemma_fold_items_ext(s: Seq<SpecNode>, cx: SpecCtx, extra: Seq<SpecReply>, budget: nat, cur: Cursor)
    ensures
        !(fold_items(s, cx, budget, cur) is Need) ==>
            fold_items(s, extended(cx, extra), budget, cur) == fold_items(s, cx, budget, cur),
    decreases s.len(),
{
    if s.len() > 0 {
        lemma_fold_items_ext(s.drop_last(), cx, extra, budget, cur);
        if let Folded::Ready(xs, c1) = fold_items(s.drop_last(), cx, budget, cur) {
            lemma_fold_item_ext(s.last(), cx, extra, budget, c1);
        }
    }
}

proof fn lemma_expand_from_ext(m: SpecNode, cx: SpecCtx, extra: Seq<SpecReply>, budget: nat, pos: nat, depth: nat)
    ensures
        !(expand_from(m, cx, budget, pos, depth) is Need) ==>
            expand_from(m, extended(cx, extra), budget, pos, depth) == expand_from(m, cx, budget, pos, depth),
    decreases MAX_EXPANSION_DEPTH - depth,
{
    lemma_fold_items_ext(m.children, cx, extra, budget, start(pos));
    if let Folded::Ready(m2, c) = fold_pass(m, cx, budget, pos) {
        if c.expanded && depth + 1 < MAX_EXPANSION_DEPTH {
            lemma_expand_from_ext(m2, cx, extra, budget, c.pos, depth + 1);
        }
    }
}

/// Replies beyond those that expansion asked for change nothing: once
/// expansion ends, without a request, on some replies, it ends the same way
/// on any longer list that begins with them.
pub proof fn lemma_extra_replies_ignored(m: SpecNode, replies: Seq<SpecReply>, extra: Seq<SpecReply>, budget: nat)
    ensures
        !(expansion(m, replies, budget) is Need) ==> expansion(m, replies + extra, budget) == expansion(m, replies, budget),
{
    let cx = SpecCtx { macros: macro_bindings(m.children), namespaces: namespace_bindings(m.children), replies };
    lemma_expand_from_ext(m, cx, extra, budget, 0, 0);
    assert(extended(cx, extra) == SpecCtx {
        macros: macro_bindings(m.children),
        namespaces: namespace_bindings(m.children),
        replies: replies + extra,
    });
}

/// A cursor moved to another reply position.
pub open spec fn at_pos(c: Cursor, p: nat) -> Cursor {
    Cursor { pos: p, expanded: c.expanded, scope: c.scope }
}

proof fn lemma_handle_keeps(res: SpecJson, cx: SpecCtx, cur: Cursor, site: Span)
    ensures
        handle_result(res, cx, cur, site) matches Folded::Ready(j, c) ==>
            c.expanded == cur.expanded && c.scope == cur.scope,
{
}

/// Expanding never clears the mark of a pass that has expanded something.
proof fn lemma_fold_node_marks(n: SpecNode, cx: SpecCtx, budget: nat, cur: Cursor)
    ensures
        fold_node(n, cx, budget, cur) matches Folded::Ready(x, c) ==> (cur.expanded ==> c.expanded),
    decreases budget, n,
{
    if n.kind == Kind::ECall && resolve_call(n, cx, cur.scope) is Some {
        if let Some(SpecReply::Called(Some(res))) = reply_at(cx.replies, cur.pos) {
            lemma_handle_keeps(res, cx, consumed(cur), n.span);
            if let Folded::Ready(j, c1) = handle_result(res, cx, consumed(cur), n.span) {
                if let Conv::Done(e) = from_json(j, FromJson::Expr, n.span) {
                    if budget > 0 {
                        lemma_fold_node_marks(e, cx, (budget - 1) as nat, marked(c1));
                    }
                }
            }
        }
    } else if is_stmt_call(n, cx, cur.scope) {
        let call = n.children[0];
        if let Some(SpecReply::Called(Some(res))) = reply_at(cx.replies, cur.pos) {
            lemma_handle_keeps(res, cx, consumed(cur), call.span);
            if let Folded::Ready(j, c1) = handle_result(res, cx, consumed(cur), call.span) {
                match from_json(j, FromJson::Stmt, n.span) {
                    Conv::Done(st) => {
                        if budget > 0 {
                            lemma_fold_node_marks(st, cx, (budget - 1) as nat, marked(c1));
                        }
                    },
                    Conv::Fail => lemma_fold_list_marks(n.children, cx, budget, c1),
                    _ => {},
                }
            }
        }
    } else if n.kind == Kind::SFnDecl && n.children.len() == 3 {
        lemma_fold_list_marks(n.children, cx, budget, with_scope(cur, fn_decl_scope(cur.scope, n)));
    } else if n.kind == Kind::EFn && n.children.len() == 3 {
        lemma_fold_list_marks(n.children, cx, budget, with_scope(cur, fn_expr_scope(cur.scope, n)));
    } else if n.kind == Kind::EArrow && n.children.len() == 2 {
        let sc = add_params(scope_enter(cur.scope), n.children[0].children);
        lemma_fold_node_marks(n.children[1], cx, budget, with_scope(cur, sc));
    } else if declares_local(n) {
        lemma_fold_list_marks(n.children, cx, budget, with_scope(cur, scope_add(cur.scope, name_of(n.children[0]))));
    } else {
        lemma_fold_list_marks(n.children, cx, budget, cur);
    }
}

proof fn lemma_fold_list_marks(s: Seq<SpecNode>, cx: SpecCtx, budget: nat, cur: Cursor)
    ensures
        fold_list(s, cx, budget, cur) matches Folded::Ready(xs, c) ==> (cur.expanded ==> c.expanded),
    decreases budget, s,
{
    if s.len() > 0 {
        lemma_fold_list_marks(s.drop_last(), cx, budget, cur);
        if let Folded::Ready(xs, c1) = fold_list(s.drop_last(), cx, budget, cur) {
            lemma_fold_node_marks(s.last(), cx, budget, c1);
        }
    }
}

proof fn lemma_fold_item_marks(item: SpecNode, cx: SpecCtx, budget: nat, cur: Cursor)
    ensures
        fold_item(item, cx, budget, cur) matches Folded::Ready(xs, c) ==> (cur.expanded ==> c.expanded),
{
    if !is_macro_import(item) {
        lemma_fold_node_marks(item, cx, budget, cur);
    }
}

/// A macro call whose expansion comes back ready has expanded something.
proof fn lemma_call_ready_marks(n: SpecNode, cx: SpecCtx, budget: nat, cur: Cursor)
    requires
        n.kind == Kind::ECall,
        resolve_call(n, cx, cur.scope) is Some,
    ensures
        fold_node(n, cx, budget, cur) matches Folded::Ready(x, c) ==> c.expanded,
{
    if let Some(SpecReply::Called(Some(res))) = reply_at(cx.replies, cur.pos) {
        if let Folded::Ready(j, c1) = handle_result(res, cx, consumed(cur), n.span) {
            if let Conv::Done(e) = from_json(j, FromJson::Expr, n.span) {
                if budget > 0 {
                    lemma_fold_node_marks(e, cx, (budget - 1) as nat, marked(c1));
                }
            }
        }
    }
}

/// A list whose expansion comes back ready had its first node expanded ready,
/// and keeps that node's mark.
proof fn lemma_fold_list_first(s: Seq<SpecNode>, cx: SpecCtx, budget: nat, cur: Cursor)
    requires
        s.len() > 0,
    ensures
        fold_list(s, cx, budget, cur) matches Folded::Ready(xs, c) ==>
            (fold_node(s[0], cx, budget, cur) matches Folded::Ready(y, c1) && (c1.expanded ==> c.expanded)),
    decreases s.len(),
{
    if s.len() > 1 {
        lemma_fold_list_first(s.drop_last(), cx, budget, cur);
        assert(s.drop_last()[0] == s[0]);
        if let Folded::Ready(xs, c1) = fold_list(s.drop_last(), cx, budget, cur) {
            lemma_fold_node_marks(s.last(), cx, budget, c1);
        }
    } else {
        assert(s.drop_last() =~= Seq::<SpecNode>::empty());
    }
}

/// Expansion that expands nothing leaves a node as it is, uses no reply, and
/// does the same from any reply position.
proof fn lemma_quiet_node(n: SpecNode, cx: SpecCtx, budget: nat, cur: Cursor, p: nat)
    requires
        !cur.expanded,
        fold_node(n, cx, budget, cur) matches Folded::Ready(x, c) && !c.expanded,
    ensures
        fold_node(n, cx, budget, cur) matches Folded::Ready(x, c) && x == n && c.pos == cur.pos
            && fold_node(n, cx, budget, at_pos(cur, p)) == Folded::Ready(n, at_pos(c, p)),
    decreases n,
{
    let cp = at_pos(cur, p);
    if n.kind == Kind::ECall && resolve_call(n, cx, cur.scope) is Some {
        lemma_call_ready_marks(n, cx, budget, cur);
    } else if is_stmt_call(n, cx, cur.scope) {
        let call = n.children[0];
        if let Some(SpecReply::Called(Some(res))) = reply_at(cx.replies, cur.pos) {
            lemma_handle_keeps(res, cx, consumed(cur), call.span);
            if let Folded::Ready(j, c1) = handle_result(res, cx, consumed(cur), call.span) {
                match from_json(j, FromJson::Stmt, n.span) {
                    Conv::Done(st) => {
                        if budget > 0 {
                            lemma_fold_node_marks(st, cx, (budget - 1) as nat, marked(c1));
                        }
                    },
                    Conv::Fail => {
                        lemma_fold_list_first(n.children, cx, budget, c1);
                        lemma_call_ready_marks(call, cx, budget, c1);
                    },
                    _ => {},
                }
            }
        }
    } else if n.kind == Kind::SFnDecl && n.children.len() == 3 {
        let c0 = with_scope(cur, fn_decl_scope(cur.scope, n));
        lemma_quiet_list(n.children, cx, budget, c0, p);
        assert(at_pos(c0, p) == with_scope(cp, fn_decl_scope(cp.scope, n)));
    } else if n.kind == Kind::EFn && n.children.len() == 3 {
        let c0 = with_scope(cur, fn_expr_scope(cur.scope, n));
        lemma_quiet_list(n.children, cx, budget, c0, p);
        assert(at_pos(c0, p) == with_scope(cp, fn_expr_scope(cp.scope, n)));
    } else if n.kind == Kind::EArrow && n.children.len() == 2 {
        let sc = add_params(scope_enter(cur.scope), n.children[0].children);
        let c0 = with_scope(cur, sc);
        lemma_quiet_node(n.children[1], cx, budget, c0, p);
        assert(at_pos(c0, p) == with_scope(cp, sc));
        assert(seq![n.children[0], n.children[1]] =~= n.children);
    } else if declares_local(n) {
        let c0 = with_scope(cur, scope_add(cur.scope, name_of(n.children[0])));
        lemma_quiet_list(n.children, cx, budget, c0, p);
        assert(at_pos(c0, p) == with_scope(cp, scope_add(cp.scope, name_of(n.children[0]))));
    } else {
        lemma_quiet_list(n.children, cx, budget, cur, p);
    }
}

proof fn lemma_quiet_list(s: Seq<SpecNode>, cx: SpecCtx, budget: nat, cur: Cursor, p: nat)
    requires
        !cur.expanded,
        fold_list(s, cx, budget, cur) matches Folded::Ready(xs, c) && !c.expanded,
    ensures
        fold_list(s, cx, budget, cur) matches Folded::Ready(xs, c) && xs == s && c.pos == cur.pos
            && fold_list(s, cx, budget, at_pos(cur, p)) == Folded::Ready(s, at_pos(c, p)),
    decreases s,
{
    if s.len() > 0 {
        if let Folded::Ready(xs, c1) = fold_list(s.drop_last(), cx, budget, cur) {
            lemma_fold_node_marks(s.last(), cx, budget, c1);
            lemma_quiet_list(s.drop_last(), cx, budget, cur, p);
            lemma_quiet_node(s.last(), cx, budget, c1, p);
            assert(s.drop_last().push(s.last()) =~= s);
        }
    } else {
        assert(s =~= Seq::<SpecNode>::empty());
    }
}

proof fn lemma_quiet_item(item: SpecNode, cx: SpecCtx, budget: nat, cur: Cursor, p: nat)
    requires
        !cur.expanded,
        fold_item(item, cx, budget, cur) matches Folded::Ready(ys, c) && !c.expanded,
    ensures
        fold_item(item, cx, budget, cur) matches Folded::Ready(ys, c)
            && ys == (if is_macro_import(item) { Seq::<SpecNode>::empty() } else { seq![item] })
            && c.pos == cur.pos
            && fold_item(item, cx, budget, at_pos(cur, p)) == Folded::Ready(ys, at_pos(c, p)),
{
    if !is_macro_import(item) {
        lemma_quiet_node(item, cx, budget, cur, p);
    }
}

proof fn lemma_quiet_items(s: Seq<SpecNode>, cx: SpecCtx, budget: nat, cur: Cursor, p: nat)
    requires
        !cur.expanded,
        fold_items(s, cx, budget, cur) matches Folded::Ready(ys, c) && !c.expanded,
    ensures
        fold_items(s, cx, budget, cur) matches Folded::Ready(ys, c) && ys == strip_macro_imports(s)
            && c.pos == cur.pos
            && fold_items(ys, cx, budget, at_pos(cur, p)) == Folded::Ready(ys, at_pos(c, p)),
    decreases s.len(),
{
    if s.len() > 0 {
        if let Folded::Ready(ys1, c1) = fold_items(s.drop_last(), cx, budget, cur) {
            lemma_fold_item_marks(s.last(), cx, budget, c1);
            lemma_quiet_items(s.drop_last(), cx, budget, cur, p);
            lemma_quiet_item(s.last(), cx, budget, c1, p);
            if let Folded::Ready(zs, c) = fold_item(s.last(), cx, budget, c1) {
                let ys = ys1 + zs;
                if is_macro_import(s.last()) {
                    assert(ys =~= ys1);
                } else {
                    assert(ys.drop_last() =~= ys1);
                    assert(ys.last() == s.last());
                }
            }
        }
    } else {
        assert(strip_macro_imports(s) =~= Seq::<SpecNode>::empty());
    }
}

proof fn lemma_expand_from_fixed(m: SpecNode, cx: SpecCtx, budget: nat, pos: nat, depth: nat, p: nat)
    ensures
        expand_from(m, cx, budget, pos, depth) matches Expanded::Done(out) ==>
            (fold_pass(out, cx, budget, p) matches Folded::Ready(o2, c) && o2 == out && !c.expanded && c.pos == p),
    decreases MAX_EXPANSION_DEPTH - depth,
{
    if let Folded::Ready(m2, c) = fold_pass(m, cx, budget, pos) {
        if !c.expanded {
            lemma_quiet_items(m.children, cx, budget, start(pos), p);
            assert(at_pos(start(pos), p) == start(p));
        } else if depth + 1 < MAX_EXPANSION_DEPTH {
            lemma_expand_from_fixed(m2, cx, budget, c.pos, depth + 1, p);
        }
    }
}

/// Expansion ends at a fixed point: a further pass over the module that
/// expansion yields, with the same macro bindings and from any reply position,
/// leaves it as it is, expands nothing and uses no reply of the sandbox.
pub proof fn lemma_expansion_result_is_fixed_point(m: SpecNode, replies: Seq<SpecReply>, budget: nat, p: nat)
    ensures
        expansion(m, replies, budget) matches Expanded::Done(out) ==>
            (fold_pass(
                out,
                SpecCtx { macros: macro_bindings(m.children), namespaces: namespace_bindings(m.children), replies },
                budget,
                p,
            ) matches Folded::Ready(o2, c) && o2 == out && !c.expanded && c.pos == p),
{
    let cx = SpecCtx { macros: macro_bindings(m.children), namespaces: namespace_bindings(m.children), replies };
    lemma_expand_from_fixed(m, cx, budget, 0, 0, p);
}

/// Whether a node holds a macro call (a call of an unshadowed name bound to a
/// macro, or of a member of a namespace bound to a macro module), each part
/// seen in the scope it stands in, starting from `sc`; and the scope after it.
pub open spec fn macro_call_in(n: SpecNode, cx: SpecCtx, sc: Seq<Seq<Seq<char>>>) -> (bool, Seq<Seq<Seq<char>>>)
    decreases n, 1nat,
{
    if n.kind == Kind::ECall && resolve_call(n, cx, sc) is Some {
        (true, sc)
    } else if n.kind == Kind::SFnDecl && n.children.len() == 3 {
        let r = macro_call_in_list(n.children, cx, fn_decl_scope(sc, n));
        (r.0, scope_leave(r.1))
    } else if n.kind == Kind::EFn && n.children.len() == 3 {
        let r = macro_call_in_list(n.children, cx, fn_expr_scope(sc, n));
        (r.0, scope_leave(r.1))
    } else if n.kind == Kind::EArrow && n.children.len() == 2 {
        let r = macro_call_in(n.children[1], cx, add_params(scope_enter(sc), n.children[0].children));
        (r.0, scope_leave(r.1))
    } else if declares_local(n) {
        macro_call_in_list(n.children, cx, scope_add(sc, name_of(n.children[0])))
    } else {
        macro_call_in_list(n.children, cx, sc)
    }
}

/// Whether a list of nodes, read in order, holds a macro call; and the scope after it.
pub open spec fn macro_call_in_list(s: Seq<SpecNode>, cx: SpecCtx, sc: Seq<Seq<Seq<char>>>) -> (bool, Seq<Seq<Seq<char>>>)
    decreases s, 0nat,
{
    if s.len() == 0 {
        (false, sc)
    } else {
        let r = macro_call_in_list(s.drop_last(), cx, sc);
        if r.0 {
            r
        } else {
            macro_call_in(s.last(), cx, r.1)
        }
    }
}

proof fn lemma_quiet_no_macro_call(n: SpecNode, cx: SpecCtx, budget: nat, cur: Cursor)
    requires
        !cur.expanded,
        fold_node(n, cx, budget, cur) matches Folded::Ready(x, c) && !c.expanded,
    ensures
        fold_node(n, cx, budget, cur) matches Folded::Ready(x, c) && macro_call_in(n, cx, cur.scope) == (false, c.scope),
    decreases n,
{
    if n.kind == Kind::ECall && resolve_call(n, cx, cur.scope) is Some {
        lemma_call_ready_marks(n, cx, budget, cur);
    } else if is_stmt_call(n, cx, cur.scope) {
        let call = n.children[0];
        if let Some(SpecReply::Called(Some(res))) = reply_at(cx.replies, cur.pos) {
            lemma_handle_keeps(res, cx, consumed(cur), call.span);
            if let Folded::Ready(j, c1) = handle_result(res, cx, consumed(cur), call.span) {
                match from_json(j, FromJson::Stmt, n.span) {
                    Conv::Done(st) => {
                        if budget > 0 {
                            lemma_fold_node_marks(st, cx, (budget - 1) as nat, marked(c1));
                        }
                    },
                    Conv::Fail => {
                        lemma_fold_list_first(n.children, cx, budget, c1);
                        lemma_call_ready_marks(call, cx, budget, c1);
                    },
                    _ => {},
                }
            }
        }
    } else if n.kind == Kind::SFnDecl && n.children.len() == 3 {
        lemma_quiet_list_no_macro_call(n.children, cx, budget, with_scope(cur, fn_decl_scope(cur.scope, n)));
    } else if n.kind == Kind::EFn && n.children.len() == 3 {
        lemma_quiet_list_no_macro_call(n.children, cx, budget, with_scope(cur, fn_expr_scope(cur.scope, n)));
    } else if n.kind == Kind::EArrow && n.children.len() == 2 {
        let sc = add_params(scope_enter(cur.scope), n.children[0].children);
        lemma_quiet_no_macro_call(n.children[1], cx, budget, with_scope(cur, sc));
    } else if declares_local(n) {
        lemma_quiet_list_no_macro_call(n.children, cx, budget, with_scope(cur, scope_add(cur.scope, name_of(n.children[0]))));
    } else {
        lemma_quiet_list_no_macro_call(n.children, cx, budget, cur);
    }
}

proof fn lemma_quiet_list_no_macro_call(s: Seq<SpecNode>, cx: SpecCtx, budget: nat, cur: Cursor)
    requires
        !cur.expanded,
        fold_list(s, cx, budget, cur) matches Folded::Ready(xs, c) && !c.expanded,
    ensures
        fold_list(s, cx, budget, cur) matches Folded::Ready(xs, c) && macro_call_in_list(s, cx, cur.scope) == (false, c.scope),
    decreases s,
{
    if s.len() > 0 {
        if let Folded::Ready(xs1, c1) = fold_list(s.drop_last(), cx, budget, cur) {
            lemma_fold_node_marks(s.last(), cx, budget, c1);
            lemma_quiet_list_no_macro_call(s.drop_last(), cx, budget, cur);
            lemma_quiet_no_macro_call(s.last(), cx, budget, c1);
        }
    }
}

proof fn lemma_quiet_items_no_macro_call(s: Seq<SpecNode>, cx: SpecCtx, budget: nat, cur: Cursor)
    requires
        !cur.expanded,
        forall|i: int| 0 <= i < s.len() ==> !is_macro_import(#[trigger] s[i]),
        fold_items(s, cx, budget, cur) matches Folded::Ready(ys, c) && !c.expanded,
    ensures
        fold_items(s, cx, budget, cur) matches Folded::Ready(ys, c) && macro_call_in_list(s, cx, cur.scope) == (false, c.scope),
    decreases s.len(),
{
    if s.len() > 0 {
        assert(!is_macro_import(s[s.len() - 1]));
        assert forall|i: int| 0 <= i < s.drop_last().len() implies !is_macro_import(#[trigger] s.drop_last()[i]) by {
            assert(s.drop_last()[i] == s[i]);
        }
        if let Folded::Ready(ys1, c1) = fold_items(s.drop_last(), cx, budget, cur) {
            lemma_fold_node_marks(s.last(), cx, budget, c1);
            lemma_quiet_items_no_macro_call(s.drop_last(), cx, budget, cur);
            lemma_quiet_no_macro_call(s.last(), cx, budget, c1);
        }
    }
}

/// Expansion leaves no macro call behind: the module it yields holds no call
/// of an unshadowed name that the module's imports bind to a macro, nor of a
/// member of a namespace they bind to a macro module.
pub proof fn lemma_expansion_leaves_no_macro_call(m: SpecNode, replies: Seq<SpecReply>, budget: nat)
    ensures
        expansion(m, replies, budget) matches Expanded::Done(out) ==>
            !macro_call_in_list(
                out.children,
                SpecCtx { macros: macro_bindings(m.children), namespaces: namespace_bindings(m.children), replies },
                Seq::empty(),
            ).0,
{
    let cx = SpecCtx { macros: macro_bindings(m.children), namespaces: namespace_bindings(m.children), replies };
    lemma_expand_from_fixed(m, cx, budget, 0, 0, 0);
    lemma_expansion_drops_macro_imports(m, replies, budget);
    if let Expanded::Done(out) = expansion(m, replies, budget) {
        lemma_quiet_items_no_macro_call(out.children, cx, budget, start(0));
    }
}

} // verus!
