//! Runtime imports: after expansion, the LJSP runtime functions that a module
//! uses without declaring them are imported from `ljsp`.
use vstd::prelude::*;
use crate::ast::{
    Kind, Node, Payload, SpecNode, SpecPayload, SpecImport, SpecImportSpec, ImportDecl, ImportSpec,
    ImportKind, snode, dummy_span, dummy, nodes_view, view_nodes, view_node, lemma_view_nodes,
    };
use crate::marshal::name_of;
use crate::recur::texts;
use crate::text::owned;

verus! {

broadcast use vstd::seq_lib::group_seq_properties;

/// What the free-identifier scan has seen so far: the names bound in scope, and
/// the names used where no binding of them is in scope, each once, in the
/// order first met.
pub struct FreeScan {
    pub declared: Seq<Seq<char>>,
    pub free: Seq<Seq<char>>,
}

pub open spec fn use_name(st: FreeScan, x: Seq<char>) -> FreeScan {
    if st.declared.contains(x) || st.free.contains(x) {
        st
    } else {
        FreeScan { free: st.free.push(x), ..st }
    }
}

/// Names bound in addition to those declared so far.
pub open spec fn declare_all(st: FreeScan, xs: Seq<Seq<char>>) -> FreeScan {
    FreeScan { declared: st.declared + xs, free: st.free }
}

/// The local names of import specifiers.
pub open spec fn import_locals(specs: Seq<SpecImportSpec>) -> Seq<Seq<char>> {
    specs.map_values(|sp: SpecImportSpec| sp.local)
}

/// Whether a node is a function with its parameters and body.
pub open spec fn is_function(n: SpecNode) -> bool {
    ((n.kind == Kind::SFnDecl || n.kind == Kind::EFn) && n.children.len() == 3)
        || (n.kind == Kind::EArrow && n.children.len() == 2)
}

/// The names a node binds in the scope it stands in, wherever in that scope
/// it stands: binding identifiers, the names of declared functions, imported
/// names; nothing inside a nested function.
pub open spec fn binders(n: SpecNode) -> Seq<Seq<char>>
    decreases n,
{
    if n.kind == Kind::PIdent {
        seq![name_of(n)]
    } else if n.kind == Kind::SFnDecl && n.children.len() == 3 {
        seq![name_of(n.children[0])]
    } else if n.kind == Kind::SFnDecl || n.kind == Kind::EFn || n.kind == Kind::EArrow {
        Seq::empty()
    } else if n.kind == Kind::Import {
        match n.payload {
            SpecPayload::Import(d) => import_locals(d.specifiers),
            _ => Seq::empty(),
        }
    } else {
        binders_seq(n.children)
    }
}

pub open spec fn binders_seq(s: Seq<SpecNode>) -> Seq<Seq<char>>
    decreases s,
{
    if s.len() == 0 {
        Seq::empty()
    } else {
        binders_seq(s.drop_last()) + binders(s.last())
    }
}

/// The names a function binds in its own scope: its parameters, what its body
/// binds, and the name of a named function expression.
pub open spec fn fn_binders(n: SpecNode) -> Seq<Seq<char>>
    recommends
        is_function(n),
{
    if n.kind == Kind::EArrow {
        binders_seq(n.children[0].children) + binders(n.children[1])
    } else {
        (if n.kind == Kind::EFn && n.children[0].kind == Kind::Ident { seq![name_of(n.children[0])] } else { Seq::empty() })
            + binders_seq(n.children[1].children) + binders(n.children[2])
    }
}

/// A scope left: what was declared before it, what was found free in it.
pub open spec fn leave(outer: FreeScan, inner: FreeScan) -> FreeScan {
    FreeScan { declared: outer.declared, free: inner.free }
}

/// The scan of a node: identifier expressions (and other plain identifier
/// uses) not bound in scope are free; a function's parameters and
/// declarations are bound throughout it and nowhere else; a module's
/// declarations and imports are bound throughout it.
pub open spec fn scan(n: SpecNode, st: FreeScan) -> FreeScan
    decreases n,
{
    if n.kind == Kind::EIdent || n.kind == Kind::Ident {
        use_name(st, name_of(n))
    } else if is_function(n) {
        let inner = declare_all(st, fn_binders(n));
        if n.kind == Kind::EArrow {
            leave(st, scan(n.children[1], scan(n.children[0], inner)))
        } else {
            leave(st, scan(n.children[2], scan(n.children[1], inner)))
        }
    } else if n.kind == Kind::Module {
        scan_seq(n.children, declare_all(st, binders_seq(n.children)))
    } else if n.kind == Kind::Import {
        st
    } else {
        scan_seq(n.children, st)
    }
}

pub open spec fn scan_seq(s: Seq<SpecNode>, st: FreeScan) -> FreeScan
    decreases s,
{
    if s.len() == 0 {
        st
    } else {
        scan(s.last(), scan_seq(s.drop_last(), st))
    }
}

/// Names that the runtime environment provides.
pub open spec fn globals() -> Seq<Seq<char>> {
    seq!["console"@, "Math"@, "JSON"@, "String"@, "Array"@, "Object"@, "Set"@, "Map"@, "setTimeout"@, "clearTimeout"@]
}

/// The LJSP runtime functions, in sorted order.
pub open spec fn runtime_names() -> Seq<Seq<char>> {
    seq!["cons"@, "filter"@, "first"@, "list"@, "map"@, "reduce"@, "rest"@]
}

/// The names among `names` that occur in `free`, in the order of `names`.
pub open spec fn select(names: Seq<Seq<char>>, free: Seq<Seq<char>>) -> Seq<Seq<char>>
    decreases names.len(),
{
    if names.len() == 0 {
        Seq::empty()
    } else {
        select(names.drop_last(), free) + (if free.contains(names.last()) { seq![names.last()] } else { Seq::empty() })
    }
}

/// The scan of a whole module, starting from the environment's names.
pub open spec fn module_scan(module: SpecNode) -> FreeScan {
    scan(module, FreeScan { declared: globals(), free: Seq::empty() })
}

/// The runtime functions a module uses without declaring them, sorted.
pub open spec fn missing_runtime(module: SpecNode) -> Seq<Seq<char>> {
    select(runtime_names(), module_scan(module).free)
}

/// A named import specifier `{ x }`.
pub open spec fn named_spec(x: Seq<char>) -> SpecImportSpec {
    SpecImportSpec { kind: ImportKind::Named, local: x, imported: None }
}

/// `import { n0, n1, .. } from 'ljsp'`.
pub open spec fn runtime_import(names: Seq<Seq<char>>) -> SpecNode {
    snode(Kind::Import, dummy_span(), SpecPayload::Import(SpecImport {
        handle: 0,
        specifiers: names.map_values(|x: Seq<char>| named_spec(x)),
        src: "ljsp"@,
        src_raw: Some("'ljsp'"@),
    }), Seq::empty())
}

/// The module with the import of its missing runtime functions in front, when there are any.
pub open spec fn with_runtime_imports(module: SpecNode) -> SpecNode {
    let names = missing_runtime(module);
    if names.len() == 0 {
        module
    } else {
        snode(module.kind, module.span, module.payload, seq![runtime_import(names)] + module.children)
    }
}

// ---------------------------------------------------------------------------
// Executable scan

/// The free-identifier scan: the names declared and the names used free so far.
pub struct FreeIdFinder {
    pub declared: Vec<String>,
    pub free: Vec<String>,
}

impl View for FreeIdFinder {
    type V = FreeScan;

    open spec fn view(&self) -> FreeScan {
        FreeScan { declared: texts(self.declared), free: texts(self.free) }
    }
}

fn contains_text(v: &Vec<String>, x: &String) -> (b: bool)
    ensures
        b == texts(*v).contains(x@),
{
    let mut i: usize = 0;
    while i < v.len()
        invariant
            i <= v.len(),
            forall|j: int| 0 <= j < i ==> texts(*v)[j] != x@,
        decreases v.len() - i,
    {
        if v[i] == *x {
            assert(texts(*v)[i as int] == x@);
            return true;
        }
        i = i + 1;
    }
    false
}

fn push_text(v: &mut Vec<String>, x: String)
    ensures
        texts(*final(v)) == texts(*old(v)).push(x@),
{
    v.push(x);
    assert(texts(*v) =~= texts(*old(v)).push(x@));
}

fn copy_texts(v: &Vec<String>) -> (r: Vec<String>)
    ensures
        texts(r) == texts(*v),
{
    let mut out: Vec<String> = Vec::new();
    let mut i: usize = 0;
    while i < v.len()
        invariant
            i <= v.len(),
            texts(out) == texts(*v).take(i as int),
        decreases v.len() - i,
    {
        push_text(&mut out, v[i].clone());
        assert(texts(*v).take(i + 1) =~= texts(*v).take(i as int).push(v@[i as int]@));
        i = i + 1;
    }
    assert(texts(*v).take(v.len() as int) =~= texts(*v));
    out
}

fn name_text_of(n: &Node) -> (s: String)
    ensures
        s@ == name_of(n@),
{
    match &n.payload {
        Payload::Name(s) => s.clone(),
        _ => String::new(),
    }
}

/// Appends the names a node binds in the scope it stands in.
fn collect_binders(n: &Node, out: &mut Vec<String>)
    ensures
        texts(*final(out)) == texts(*old(out)) + binders(n@),
    decreases n,
{
    proof {
        lemma_view_nodes(n.children@);
    }
    let ghost before = texts(*out);
    if n.kind == Kind::PIdent {
        push_text(out, name_text_of(n));
    } else if n.kind == Kind::SFnDecl && n.children.len() == 3 {
        push_text(out, name_text_of(&n.children[0]));
    } else if n.kind == Kind::SFnDecl || n.kind == Kind::EFn || n.kind == Kind::EArrow {
    } else if n.kind == Kind::Import {
        match &n.payload {
            Payload::Import(d) => {
                let ghost specs = d@.specifiers;
                let mut i: usize = 0;
                while i < d.specifiers.len()
                    invariant
                        i <= d.specifiers.len(),
                        specs == d@.specifiers,
                        specs.len() == d.specifiers.len(),
                        texts(*out) == before + import_locals(specs.take(i as int)),
                    decreases d.specifiers.len() - i,
                {
                    assert(specs[i as int] == d.specifiers@[i as int]@);
                    push_text(out, d.specifiers[i].local.clone());
                    assert(import_locals(specs.take(i + 1)) =~= import_locals(specs.take(i as int)).push(specs[i as int].local));
                    i = i + 1;
                }
                assert(specs.take(d.specifiers.len() as int) =~= specs);
            },
            _ => {},
        }
    } else {
        collect_binders_seq(&n.children, out);
    }
    assert(texts(*out) =~= before + binders(n@));
}

fn collect_binders_seq(v: &Vec<Node>, out: &mut Vec<String>)
    ensures
        texts(*final(out)) == texts(*old(out)) + binders_seq(nodes_view(*v)),
    decreases v,
{
    let ghost before = texts(*out);
    let mut i: usize = 0;
    proof {
        lemma_view_nodes(v@);
    }
    while i < v.len()
        invariant
            i <= v.len(),
            view_nodes(v@).len() == v.len(),
            forall|j: int| 0 <= j < v.len() ==> #[trigger] view_nodes(v@)[j] == view_node(v@[j]),
            texts(*out) == before + binders_seq(view_nodes(v@).take(i as int)),
        decreases v.len() - i,
    {
        collect_binders(&v[i], out);
        assert(view_nodes(v@).take(i + 1).drop_last() =~= view_nodes(v@).take(i as int));
        assert(texts(*out) =~= before + binders_seq(view_nodes(v@).take(i + 1)));
        i = i + 1;
    }
    assert(view_nodes(v@).take(v.len() as int) =~= view_nodes(v@));
}

impl FreeIdFinder {
    fn use_name(&mut self, x: &String)
        ensures
            final(self)@ == use_name(old(self)@, x@),
    {
        if !contains_text(&self.declared, x) && !contains_text(&self.free, x) {
            push_text(&mut self.free, x.clone());
        }
    }

    fn declare_all(&mut self, xs: Vec<String>)
        ensures
            final(self)@ == declare_all(old(self)@, texts(xs)),
    {
        let ghost before = texts(self.declared);
        let mut i: usize = 0;
        while i < xs.len()
            invariant
                i <= xs.len(),
                texts(self.declared) == before + texts(xs).take(i as int),
                self.free == old(self).free,
            decreases xs.len() - i,
        {
            push_text(&mut self.declared, xs[i].clone());
            assert(texts(xs).take(i + 1) =~= texts(xs).take(i as int).push(xs@[i as int]@));
            assert(texts(self.declared) =~= before + texts(xs).take(i + 1));
            i = i + 1;
        }
        assert(texts(xs).take(xs.len() as int) =~= texts(xs));
    }

    /// Scans a node.
    pub fn scan(&mut self, n: &Node)
        ensures
            final(self)@ == scan(n@, old(self)@),
        decreases n,
    {
        proof {
            lemma_view_nodes(n.children@);
        }
        let len = n.children.len();
        let is_fn = ((n.kind == Kind::SFnDecl || n.kind == Kind::EFn) && len == 3) || (n.kind == Kind::EArrow && len == 2);
        if n.kind == Kind::EIdent || n.kind == Kind::Ident {
            let x = name_text_of(n);
            self.use_name(&x);
        } else if is_fn {
            let saved = copy_texts(&self.declared);
            let mut bs: Vec<String> = Vec::new();
            assert(texts(bs) =~= Seq::<Seq<char>>::empty());
            proof {
                lemma_view_nodes(n.children[0].children@);
                if n.kind != Kind::EArrow {
                    lemma_view_nodes(n.children[1].children@);
                }
            }
            if n.kind == Kind::EArrow {
                collect_binders_seq(&n.children[0].children, &mut bs);
                collect_binders(&n.children[1], &mut bs);
            } else {
                if n.kind == Kind::EFn && n.children[0].kind == Kind::Ident {
                    push_text(&mut bs, name_text_of(&n.children[0]));
                }
                collect_binders_seq(&n.children[1].children, &mut bs);
                collect_binders(&n.children[2], &mut bs);
            }
            assert(texts(bs) =~= fn_binders(n@));
            self.declare_all(bs);
            if n.kind == Kind::EArrow {
                self.scan(&n.children[0]);
                self.scan(&n.children[1]);
            } else {
                self.scan(&n.children[1]);
                self.scan(&n.children[2]);
            }
            self.declared = saved;
        } else if n.kind == Kind::Module {
            let mut bs: Vec<String> = Vec::new();
            assert(texts(bs) =~= Seq::<Seq<char>>::empty());
            collect_binders_seq(&n.children, &mut bs);
            assert(texts(bs) =~= binders_seq(n@.children));
            self.declare_all(bs);
            self.scan_seq(&n.children);
        } else if n.kind == Kind::Import {
        } else {
            self.scan_seq(&n.children);
        }
    }

    /// Scans a list of nodes in order.
    pub fn scan_seq(&mut self, v: &Vec<Node>)
        ensures
            final(self)@ == scan_seq(nodes_view(*v), old(self)@),
        decreases v,
    {
        let ghost st0 = self@;
        let mut i: usize = 0;
        proof {
            lemma_view_nodes(v@);
        }
        while i < v.len()
            invariant
                i <= v.len(),
                view_nodes(v@).len() == v.len(),
                forall|j: int| 0 <= j < v.len() ==> #[trigger] view_nodes(v@)[j] == view_node(v@[j]),
                self@ == scan_seq(view_nodes(v@).take(i as int), st0),
            decreases v.len() - i,
        {
            self.scan(&v[i]);
            assert(view_nodes(v@).take(i + 1).drop_last() =~= view_nodes(v@).take(i as int));
            i = i + 1;
        }
        assert(view_nodes(v@).take(v.len() as int) =~= view_nodes(v@));
    }
}

fn runtime_list() -> (v: Vec<&'static str>)
    ensures
        v@.map_values(|s: &str| s@) == runtime_names(),
{
    let v = vec!["cons", "filter", "first", "list", "map", "reduce", "rest"];
    assert(v@.map_values(|s: &str| s@) =~= runtime_names());
    v
}

fn globals_list() -> (v: Vec<String>)
    ensures
        texts(v) == globals(),
{
    let v = vec![
        owned("console"), owned("Math"), owned("JSON"), owned("String"), owned("Array"),
        owned("Object"), owned("Set"), owned("Map"), owned("setTimeout"), owned("clearTimeout"),
    ];
    assert(texts(v) =~= globals());
    v
}

/// The runtime functions a module uses without declaring them, sorted.
pub fn missing_runtime_names(module: &Node) -> (r: Vec<String>)
    ensures
        texts(r) == missing_runtime(module@),
{
    let mut scanner = FreeIdFinder { declared: globals_list(), free: Vec::new() };
    assert(scanner@.free =~= Seq::<Seq<char>>::empty());
    scanner.scan(module);
    let names = runtime_list();
    let ghost rn = runtime_names();
    let ghost free = scanner@.free;
    let mut out: Vec<String> = Vec::new();
    let mut i: usize = 0;
    while i < names.len()
        invariant
            i <= names.len(),
            rn == runtime_names(),
            names@.map_values(|s: &str| s@) == rn,
            free == texts(scanner.free),
            texts(out) == select(rn.take(i as int), free),
        decreases names.len() - i,
    {
        let x = owned(names[i]);
        assert(x@ == rn[i as int]);
        assert(rn.take(i + 1).drop_last() =~= rn.take(i as int));
        if contains_text(&scanner.free, &x) {
            push_text(&mut out, x);
        } else {
            assert(select(rn.take(i as int), free) + Seq::<Seq<char>>::empty() =~= select(rn.take(i as int), free));
        }
        i = i + 1;
    }
    assert(rn.take(names.len() as int) =~= rn);
    out
}

/// `inject_runtime_imports`: puts `import { .. } from 'ljsp'` for the missing
/// runtime functions in front of the module's items, when there are any.
pub fn inject_runtime_imports(module: Node) -> (r: Node)
    ensures
        r@ == with_runtime_imports(module@),
{
    let names = missing_runtime_names(&module);
    if names.len() == 0 {
        return module;
    }
    let mut specs: Vec<ImportSpec> = Vec::new();
    let mut i: usize = 0;
    while i < names.len()
        invariant
            i <= names.len(),
            specs.len() == i,
            forall|j: int| 0 <= j < i ==> #[trigger] specs@[j]@ == named_spec(names@[j]@),
        decreases names.len() - i,
    {
        specs.push(ImportSpec { kind: ImportKind::Named, local: names[i].clone(), imported: None });
        i = i + 1;
    }
    let decl = ImportDecl { handle: 0, specifiers: specs, src: owned("ljsp"), src_raw: Some(owned("'ljsp'")) };
    assert(decl@.specifiers =~= texts(names).map_values(|x: Seq<char>| named_spec(x)));
    let import = Node { kind: Kind::Import, span: dummy(), payload: Payload::Import(decl), children: Vec::new() };
    assert(import@.children =~= Seq::<SpecNode>::empty());
    let Node { kind, span, payload, mut children } = module;
    let ghost before = children@;
    children.insert(0, import);
    proof {
        lemma_view_nodes(before);
        lemma_view_nodes(children@);
        assert(view_nodes(children@) =~= seq![import@] + view_nodes(before));
    }
    Node { kind, span, payload, children }
}

// ---------------------------------------------------------------------------
// Laws

proof fn lemma_scan_seq_append(a: Seq<SpecNode>, b: Seq<SpecNode>, st: FreeScan)
    ensures
        scan_seq(a + b, st) == scan_seq(b, scan_seq(a, st)),
    decreases b.len(),
{
    if b.len() == 0 {
        assert(a + b =~= a);
    } else {
        lemma_scan_seq_append(a, b.drop_last(), st);
        assert((a + b).drop_last() =~= a + b.drop_last());
        assert((a + b).last() == b.last());
    }
}

/// `st2` has declared all `st1` has and all of `names`; whatever `st2` found
/// free, `st1` found free too, and it is none of `names`.
pub open spec fn covers(st1: FreeScan, st2: FreeScan, names: Seq<Seq<char>>) -> bool {
    &&& forall|x: Seq<char>| #[trigger] st1.declared.contains(x) ==> st2.declared.contains(x)
    &&& forall|x: Seq<char>| #[trigger] names.contains(x) ==> st2.declared.contains(x)
    &&& forall|x: Seq<char>| #[trigger] st2.free.contains(x) ==> st1.free.contains(x) && !names.contains(x)
}

proof fn lemma_use_name_covers(st1: FreeScan, st2: FreeScan, names: Seq<Seq<char>>, x: Seq<char>)
    requires
        covers(st1, st2, names),
    ensures
        covers(use_name(st1, x), use_name(st2, x), names),
{
    let a = use_name(st1, x);
    let b = use_name(st2, x);
    assert(a.declared == st1.declared);
    assert(b.declared == st2.declared);
    assert forall|y: Seq<char>| #[trigger] b.free.contains(y) implies a.free.contains(y) && !names.contains(y) by {
        if b.free == st2.free {
            assert(st1.free.contains(y));
            if a.free != st1.free {
                assert(a.free == st1.free.push(x));
                assert(a.free[st1.free.index_of(y)] == y);
            }
        } else {
            assert(b.free == st2.free.push(x));
            assert(!st1.declared.contains(x));
            if y == x {
                assert(!names.contains(x));
                if a.free == st1.free {
                    assert(st1.free.contains(x));
                } else {
                    assert(a.free == st1.free.push(x));
                    assert(a.free[st1.free.len() as int] == x);
                }
            } else {
                assert(st2.free.contains(y));
                assert(st1.free.contains(y));
                if a.free != st1.free {
                    assert(a.free == st1.free.push(x));
                    assert(a.free[st1.free.index_of(y)] == y);
                }
            }
        }
    }
}

proof fn lemma_declare_all_covers(st1: FreeScan, st2: FreeScan, names: Seq<Seq<char>>, xs: Seq<Seq<char>>)
    requires
        covers(st1, st2, names),
    ensures
        covers(declare_all(st1, xs), declare_all(st2, xs), names),
{
    let a = declare_all(st1, xs);
    let b = declare_all(st2, xs);
    assert forall|y: Seq<char>| #[trigger] a.declared.contains(y) implies b.declared.contains(y) by {
        let k = choose|k: int| 0 <= k < a.declared.len() && a.declared[k] == y;
        if k < st1.declared.len() {
            assert(st1.declared[k] == y);
            assert(st1.declared.contains(y));
            let k2 = choose|k2: int| 0 <= k2 < st2.declared.len() && st2.declared[k2] == y;
            assert(b.declared[k2] == y);
        } else {
            assert(b.declared[st2.declared.len() + (k - st1.declared.len())] == y);
        }
    }
    assert forall|y: Seq<char>| #[trigger] names.contains(y) implies b.declared.contains(y) by {
        assert(st2.declared.contains(y));
        let k2 = choose|k2: int| 0 <= k2 < st2.declared.len() && st2.declared[k2] == y;
        assert(b.declared[k2] == y);
    }
}

proof fn lemma_scan_covers(n: SpecNode, st1: FreeScan, st2: FreeScan, names: Seq<Seq<char>>)
    requires
        covers(st1, st2, names),
    ensures
        covers(scan(n, st1), scan(n, st2), names),
    decreases n,
{
    if n.kind == Kind::EIdent || n.kind == Kind::Ident {
        lemma_use_name_covers(st1, st2, names, name_of(n));
    } else if is_function(n) {
        let i1 = declare_all(st1, fn_binders(n));
        let i2 = declare_all(st2, fn_binders(n));
        lemma_declare_all_covers(st1, st2, names, fn_binders(n));
        if n.kind == Kind::EArrow {
            lemma_scan_covers(n.children[0], i1, i2, names);
            lemma_scan_covers(n.children[1], scan(n.children[0], i1), scan(n.children[0], i2), names);
        } else {
            lemma_scan_covers(n.children[1], i1, i2, names);
            lemma_scan_covers(n.children[2], scan(n.children[1], i1), scan(n.children[1], i2), names);
        }
    } else if n.kind == Kind::Module {
        lemma_declare_all_covers(st1, st2, names, binders_seq(n.children));
        lemma_scan_seq_covers(n.children, declare_all(st1, binders_seq(n.children)),
            declare_all(st2, binders_seq(n.children)), names);
    } else if n.kind == Kind::Import {
    } else {
        lemma_scan_seq_covers(n.children, st1, st2, names);
    }
}

proof fn lemma_scan_seq_covers(s: Seq<SpecNode>, st1: FreeScan, st2: FreeScan, names: Seq<Seq<char>>)
    requires
        covers(st1, st2, names),
    ensures
        covers(scan_seq(s, st1), scan_seq(s, st2), names),
    decreases s,
{
    if s.len() > 0 {
        lemma_scan_seq_covers(s.drop_last(), st1, st2, names);
        lemma_scan_covers(s.last(), scan_seq(s.drop_last(), st1), scan_seq(s.drop_last(), st2), names);
    }
}

proof fn lemma_binders_seq_append(a: Seq<SpecNode>, b: Seq<SpecNode>)
    ensures
        binders_seq(a + b) == binders_seq(a) + binders_seq(b),
    decreases b.len(),
{
    if b.len() == 0 {
        assert(a + b =~= a);
        assert(binders_seq(a) + binders_seq(b) =~= binders_seq(a));
    } else {
        lemma_binders_seq_append(a, b.drop_last());
        assert((a + b).drop_last() =~= a + b.drop_last());
        assert((a + b).last() == b.last());
        assert(binders_seq(a) + binders_seq(b.drop_last()) + binders(b.last())
            =~= binders_seq(a) + (binders_seq(b.drop_last()) + binders(b.last())));
    }
}

proof fn lemma_select_contains(names: Seq<Seq<char>>, free: Seq<Seq<char>>, x: Seq<char>)
    ensures
        select(names, free).contains(x) <==> names.contains(x) && free.contains(x),
    decreases names.len(),
{
    if names.len() > 0 {
        lemma_select_contains(names.drop_last(), free, x);
        let rest = select(names.drop_last(), free);
        let extra = if free.contains(names.last()) { seq![names.last()] } else { Seq::<Seq<char>>::empty() };
        if (rest + extra).contains(x) {
            let k = choose|k: int| 0 <= k < (rest + extra).len() && (rest + extra)[k] == x;
            if k < rest.len() {
                assert(rest[k] == x);
                let j = choose|j: int| 0 <= j < names.drop_last().len() && names.drop_last()[j] == x;
                assert(names[j] == x);
            } else {
                assert(names[names.len() - 1] == x);
            }
        }
        if names.contains(x) && free.contains(x) {
            let j = choose|j: int| 0 <= j < names.len() && names[j] == x;
            if j < names.len() - 1 {
                assert(names.drop_last()[j] == x);
                let k = choose|k: int| 0 <= k < rest.len() && rest[k] == x;
                assert((rest + extra)[k] == x);
            } else {
                assert((rest + extra)[rest.len() as int] == x);
            }
        }
    }
}

/// The injected import names exactly the runtime functions that the module
/// uses free, where no binding of them is in scope.
pub proof fn lemma_missing_runtime_exact(module: SpecNode, x: Seq<char>)
    ensures
        missing_runtime(module).contains(x) <==> runtime_names().contains(x) && module_scan(module).free.contains(x),
{
    lemma_select_contains(runtime_names(), module_scan(module).free, x);
}

/// Injecting the runtime imports twice is injecting them once: after the first
/// time, every runtime function the module uses is declared by the import.
pub proof fn lemma_inject_idempotent(module: SpecNode)
    requires
        module.kind == Kind::Module,
    ensures
        with_runtime_imports(with_runtime_imports(module)) == with_runtime_imports(module),
{
    let names = missing_runtime(module);
    if names.len() > 0 {
        let m2 = with_runtime_imports(module);
        let imp = runtime_import(names);
        let st0 = FreeScan { declared: globals(), free: Seq::empty() };
        let b = binders_seq(module.children);
        assert(import_locals(names.map_values(|x: Seq<char>| named_spec(x))) =~= names);
        assert(binders(imp) == names);
        assert(binders_seq(seq![imp]) == names) by {
            let one = seq![imp];
            assert(one.drop_last() =~= Seq::<SpecNode>::empty());
            assert(one.last() == imp);
            assert(binders_seq(one.drop_last()) == Seq::<Seq<char>>::empty());
            assert(binders_seq(one) == binders_seq(one.drop_last()) + binders(one.last()));
            assert(Seq::<Seq<char>>::empty() + names =~= names);
        }
        lemma_binders_seq_append(seq![imp], module.children);
        let st1 = declare_all(st0, b);
        let st2 = declare_all(st0, names + b);
        lemma_scan_seq_append(seq![imp], module.children, st2);
        assert(scan_seq(seq![imp], st2) == st2) by {
            let one = seq![imp];
            assert(one.drop_last() =~= Seq::<SpecNode>::empty());
            assert(one.last() == imp);
            assert(scan_seq(one.drop_last(), st2) == st2);
            assert(scan_seq(one, st2) == scan(one.last(), scan_seq(one.drop_last(), st2)));
            assert(imp.kind == Kind::Import);
        }
        assert(covers(st1, st2, names)) by {
            assert forall|y: Seq<char>| #[trigger] st1.declared.contains(y) implies st2.declared.contains(y) by {
                let k = choose|k: int| 0 <= k < st1.declared.len() && st1.declared[k] == y;
                if k < globals().len() {
                    assert(st2.declared[k] == y);
                } else {
                    assert(st2.declared[k + names.len()] == y);
                }
            }
            assert forall|y: Seq<char>| #[trigger] names.contains(y) implies st2.declared.contains(y) by {
                let k = choose|k: int| 0 <= k < names.len() && names[k] == y;
                assert(st2.declared[globals().len() + k] == y);
            }
        }
        lemma_scan_seq_covers(module.children, st1, st2, names);
        assert(seq![imp] + module.children == m2.children);
        assert(module_scan(m2) == scan_seq(module.children, st2));
        assert(module_scan(module) == scan_seq(module.children, st1));
        let free2 = module_scan(m2).free;
        assert forall|x: Seq<char>| !select(runtime_names(), free2).contains(x) by {
            lemma_select_contains(runtime_names(), free2, x);
            lemma_select_contains(runtime_names(), module_scan(module).free, x);
        }
        if missing_runtime(m2).len() > 0 {
            assert(missing_runtime(m2).contains(missing_runtime(m2)[0]));
        }
    }
}

/// `a < b` in the order of Rust strings: lexicographic by character.
pub open spec fn text_lt(a: Seq<char>, b: Seq<char>) -> bool
    decreases a.len(),
{
    if b.len() == 0 {
        false
    } else if a.len() == 0 {
        true
    } else if a[0] != b[0] {
        (a[0] as u32) < (b[0] as u32)
    } else {
        text_lt(a.skip(1), b.skip(1))
    }
}

/// Strictly ascending.
pub open spec fn ascending(s: Seq<Seq<char>>) -> bool {
    forall|i: int, j: int| 0 <= i < j < s.len() ==> text_lt(#[trigger] s[i], #[trigger] s[j])
}

proof fn lemma_runtime_names_ascending()
    ensures
        ascending(runtime_names()),
{
    reveal_strlit("cons");
    reveal_strlit("filter");
    reveal_strlit("first");
    reveal_strlit("list");
    reveal_strlit("map");
    reveal_strlit("reduce");
    reveal_strlit("rest");
    let r = runtime_names();
    assert(text_lt("filter"@, "first"@)) by {
        let (a, b) = ("filter"@, "first"@);
        assert(a.skip(1).skip(1)[0] == 'l' && b.skip(1).skip(1)[0] == 'r');
        assert(text_lt(a.skip(1).skip(1), b.skip(1).skip(1)));
        assert(a.skip(1)[0] == 'i' && b.skip(1)[0] == 'i');
        assert(text_lt(a.skip(1), b.skip(1)));
    }
    assert(text_lt("reduce"@, "rest"@)) by {
        let (a, b) = ("reduce"@, "rest"@);
        assert(a.skip(1).skip(1)[0] == 'd' && b.skip(1).skip(1)[0] == 's');
        assert(text_lt(a.skip(1).skip(1), b.skip(1).skip(1)));
        assert(a.skip(1)[0] == 'e' && b.skip(1)[0] == 'e');
        assert(text_lt(a.skip(1), b.skip(1)));
    }
    assert forall|i: int, j: int| 0 <= i < j < r.len() implies text_lt(#[trigger] r[i], #[trigger] r[j]) by {
        assert(r[0] == "cons"@ && r[1] == "filter"@ && r[2] == "first"@ && r[3] == "list"@);
        assert(r[4] == "map"@ && r[5] == "reduce"@ && r[6] == "rest"@);
    }
}

proof fn lemma_select_ascending(names: Seq<Seq<char>>, free: Seq<Seq<char>>)
    requires
        ascending(names),
    ensures
        ascending(select(names, free)),
    decreases names.len(),
{
    if names.len() > 0 {
        let d = names.drop_last();
        assert(ascending(d)) by {
            assert forall|i: int, j: int| 0 <= i < j < d.len() implies text_lt(#[trigger] d[i], #[trigger] d[j]) by {
                assert(d[i] == names[i] && d[j] == names[j]);
            }
        }
        lemma_select_ascending(d, free);
        let rest = select(d, free);
        if free.contains(names.last()) {
            let s = rest + seq![names.last()];
            assert forall|i: int, j: int| 0 <= i < j < s.len() implies text_lt(#[trigger] s[i], #[trigger] s[j]) by {
                if j == rest.len() {
                    assert(rest.contains(s[i])) by {
                        assert(rest[i] == s[i]);
                    }
                    lemma_select_contains(d, free, s[i]);
                    let k = choose|k: int| 0 <= k < d.len() && d[k] == s[i];
                    assert(names[k] == s[i]);
                    assert(names[names.len() - 1] == s[j]);
                } else {
                    assert(s[i] == rest[i] && s[j] == rest[j]);
                }
            }
        } else {
            assert(rest + Seq::<Seq<char>>::empty() =~= rest);
        }
    }
}

/// The runtime functions are imported in ascending order, each once.
pub proof fn lemma_runtime_imports_sorted(module: SpecNode)
    ensures
        ascending(missing_runtime(module)),
{
    lemma_runtime_names_ascending();
    lemma_select_ascending(runtime_names(), module_scan(module).free);
}

/// A module that uses no runtime function free comes back unchanged.
pub proof fn lemma_no_runtime_use_unchanged(module: SpecNode)
    requires
        forall|x: Seq<char>| runtime_names().contains(x) ==> !(#[trigger] module_scan(module).free.contains(x)),
    ensures
        with_runtime_imports(module) == module,
{
    let names = missing_runtime(module);
    if names.len() > 0 {
        lemma_missing_runtime_exact(module, names[0]);
        assert(names.contains(names[0]));
    }
}

/// Injection only puts one import in front: the module's own items, its
/// imports among them, follow in their order, and nothing else changes.
pub proof fn lemma_injection_keeps_items(module: SpecNode)
    ensures
        ({
            let m2 = with_runtime_imports(module);
            &&& m2.kind == module.kind
            &&& m2.span == module.span
            &&& m2.payload == module.payload
            &&& (m2 == module || (m2.children.len() == module.children.len() + 1
                && m2.children[0] == runtime_import(missing_runtime(module))
                && m2.children.skip(1) == module.children))
        }),
{
    let m2 = with_runtime_imports(module);
    if missing_runtime(module).len() > 0 {
        assert(m2.children.skip(1) =~= module.children);
    }
}

/// The scan finds each free name once: from a start whose free names are
/// distinct, the free names it ends with are distinct.
pub proof fn lemma_scan_free_distinct(n: SpecNode, st: FreeScan)
    requires
        st.free.no_duplicates(),
    ensures
        scan(n, st).free.no_duplicates(),
    decreases n,
{
    if n.kind == Kind::EIdent || n.kind == Kind::Ident {
        let x = name_of(n);
        if !(st.declared.contains(x) || st.free.contains(x)) {
            let f = st.free.push(x);
            assert forall|i: int, j: int| 0 <= i < f.len() && 0 <= j < f.len() && i != j implies f[i] != f[j] by {
                if i < st.free.len() && j < st.free.len() {
                } else if i < st.free.len() {
                    assert(st.free.contains(f[i]));
                } else {
                    assert(st.free.contains(f[j]));
                }
            }
        }
    } else if is_function(n) {
        let inner = declare_all(st, fn_binders(n));
        if n.kind == Kind::EArrow {
            lemma_scan_free_distinct(n.children[0], inner);
            lemma_scan_free_distinct(n.children[1], scan(n.children[0], inner));
        } else {
            lemma_scan_free_distinct(n.children[1], inner);
            lemma_scan_free_distinct(n.children[2], scan(n.children[1], inner));
        }
    } else if n.kind == Kind::Module {
        lemma_scan_seq_free_distinct(n.children, declare_all(st, binders_seq(n.children)));
    } else if n.kind == Kind::Import {
    } else {
        lemma_scan_seq_free_distinct(n.children, st);
    }
}

proof fn lemma_scan_seq_free_distinct(s: Seq<SpecNode>, st: FreeScan)
    requires
        st.free.no_duplicates(),
    ensures
        scan_seq(s, st).free.no_duplicates(),
    decreases s,
{
    if s.len() > 0 {
        lemma_scan_seq_free_distinct(s.drop_last(), st);
        lemma_scan_free_distinct(s.last(), scan_seq(s.drop_last(), st));
    }
}

/// Whether `x` occurs in a node as an identifier (an identifier expression or
/// another plain identifier), at any depth.
pub open spec fn occurs_as_identifier(n: SpecNode, x: Seq<char>) -> bool
    decreases n,
{
    ((n.kind == Kind::EIdent || n.kind == Kind::Ident) && name_of(n) == x) || occurs_in_any(n.children, x)
}

pub open spec fn occurs_in_any(s: Seq<SpecNode>, x: Seq<char>) -> bool
    decreases s,
{
    s.len() > 0 && (occurs_in_any(s.drop_last(), x) || occurs_as_identifier(s.last(), x))
}

proof fn lemma_occurs_in_child(s: Seq<SpecNode>, i: int, x: Seq<char>)
    requires
        0 <= i < s.len(),
        occurs_as_identifier(s[i], x),
    ensures
        occurs_in_any(s, x),
    decreases s.len(),
{
    if i < s.len() - 1 {
        assert(s.drop_last()[i] == s[i]);
        lemma_occurs_in_child(s.drop_last(), i, x);
    }
}

/// The scan finds free only names that occur as identifiers.
proof fn lemma_scan_free_occurs(n: SpecNode, st: FreeScan, y: Seq<char>)
    ensures
        scan(n, st).free.contains(y) ==> st.free.contains(y) || occurs_as_identifier(n, y),
    decreases n,
{
    if n.kind == Kind::EIdent || n.kind == Kind::Ident {
        let x = name_of(n);
        if scan(n, st).free.contains(y) && !st.free.contains(y) {
            if !(st.declared.contains(x) || st.free.contains(x)) {
                let f = st.free.push(x);
                let k = choose|k: int| 0 <= k < f.len() && f[k] == y;
                if k < st.free.len() {
                    assert(st.free[k] == y);
                }
            }
        }
    } else if is_function(n) {
        let inner = declare_all(st, fn_binders(n));
        if n.kind == Kind::EArrow {
            lemma_scan_free_occurs(n.children[0], inner, y);
            lemma_scan_free_occurs(n.children[1], scan(n.children[0], inner), y);
            if occurs_as_identifier(n.children[0], y) {
                lemma_occurs_in_child(n.children, 0, y);
            }
            if occurs_as_identifier(n.children[1], y) {
                lemma_occurs_in_child(n.children, 1, y);
            }
        } else {
            lemma_scan_free_occurs(n.children[1], inner, y);
            lemma_scan_free_occurs(n.children[2], scan(n.children[1], inner), y);
            if occurs_as_identifier(n.children[1], y) {
                lemma_occurs_in_child(n.children, 1, y);
            }
            if occurs_as_identifier(n.children[2], y) {
                lemma_occurs_in_child(n.children, 2, y);
            }
        }
    } else if n.kind == Kind::Module {
        lemma_scan_seq_free_occurs(n.children, declare_all(st, binders_seq(n.children)), y);
    } else if n.kind == Kind::Import {
    } else {
        lemma_scan_seq_free_occurs(n.children, st, y);
    }
}

proof fn lemma_scan_seq_free_occurs(s: Seq<SpecNode>, st: FreeScan, y: Seq<char>)
    ensures
        scan_seq(s, st).free.contains(y) ==> st.free.contains(y) || occurs_in_any(s, y),
    decreases s,
{
    if s.len() > 0 {
        lemma_scan_seq_free_occurs(s.drop_last(), st, y);
        lemma_scan_free_occurs(s.last(), scan_seq(s.drop_last(), st), y);
    }
}

/// A module in which no runtime function occurs as an identifier comes back
/// unchanged.
pub proof fn lemma_no_runtime_identifier_unchanged(module: SpecNode)
    requires
        forall|x: Seq<char>| runtime_names().contains(x) ==> !(#[trigger] occurs_as_identifier(module, x)),
    ensures
        with_runtime_imports(module) == module,
{
    assert forall|x: Seq<char>| runtime_names().contains(x) implies !(#[trigger] module_scan(module).free.contains(x)) by {
        lemma_scan_free_occurs(module, FreeScan { declared: globals(), free: Seq::empty() }, x);
    }
    lemma_no_runtime_use_unchanged(module);
}

/// Whether `x` occurs free in a node where the names `bound` are bound: as an
/// identifier expression (or another plain identifier use) that no enclosing
/// binding covers. A function binds its parameters and what its body declares
/// throughout itself; a module binds what its items declare and import
/// throughout itself; an import uses nothing.
pub open spec fn occurs_free(n: SpecNode, x: Seq<char>, bound: Seq<Seq<char>>) -> bool
    decreases n, 1nat,
{
    if n.kind == Kind::EIdent || n.kind == Kind::Ident {
        name_of(n) == x && !bound.contains(x)
    } else if is_function(n) {
        let b = bound + fn_binders(n);
        if n.kind == Kind::EArrow {
            occurs_free(n.children[0], x, b) || occurs_free(n.children[1], x, b)
        } else {
            occurs_free(n.children[1], x, b) || occurs_free(n.children[2], x, b)
        }
    } else if n.kind == Kind::Module {
        occurs_free_in_any(n.children, x, bound + binders_seq(n.children))
    } else if n.kind == Kind::Import {
        false
    } else {
        occurs_free_in_any(n.children, x, bound)
    }
}

pub open spec fn occurs_free_in_any(s: Seq<SpecNode>, x: Seq<char>, bound: Seq<Seq<char>>) -> bool
    decreases s, 0nat,
{
    s.len() > 0 && (occurs_free_in_any(s.drop_last(), x, bound) || occurs_free(s.last(), x, bound))
}

/// Whether no module node stands in a tree.
pub open spec fn module_free(n: SpecNode) -> bool
    decreases n, 1nat,
{
    n.kind != Kind::Module && all_module_free(n.children)
}

pub open spec fn all_module_free(s: Seq<SpecNode>) -> bool
    decreases s, 0nat,
{
    s.len() == 0 || (all_module_free(s.drop_last()) && module_free(s.last()))
}

proof fn lemma_all_module_free_index(s: Seq<SpecNode>, i: int)
    requires
        all_module_free(s),
        0 <= i < s.len(),
    ensures
        module_free(s[i]),
    decreases s.len(),
{
    if i < s.len() - 1 {
        assert(s.drop_last()[i] == s[i]);
        lemma_all_module_free_index(s.drop_last(), i);
    }
}

/// Once found free, a name stays found free.
proof fn lemma_scan_keeps_free(n: SpecNode, st: FreeScan, y: Seq<char>)
    requires
        st.free.contains(y),
    ensures
        scan(n, st).free.contains(y),
    decreases n,
{
    if n.kind == Kind::EIdent || n.kind == Kind::Ident {
        let x = name_of(n);
        if !(st.declared.contains(x) || st.free.contains(x)) {
            let k = choose|k: int| 0 <= k < st.free.len() && st.free[k] == y;
            assert(st.free.push(x)[k] == y);
        }
    } else if is_function(n) {
        let inner = declare_all(st, fn_binders(n));
        if n.kind == Kind::EArrow {
            lemma_scan_keeps_free(n.children[0], inner, y);
            lemma_scan_keeps_free(n.children[1], scan(n.children[0], inner), y);
        } else {
            lemma_scan_keeps_free(n.children[1], inner, y);
            lemma_scan_keeps_free(n.children[2], scan(n.children[1], inner), y);
        }
    } else if n.kind == Kind::Module {
        lemma_scan_seq_keeps_free(n.children, declare_all(st, binders_seq(n.children)), y);
    } else if n.kind == Kind::Import {
    } else {
        lemma_scan_seq_keeps_free(n.children, st, y);
    }
}

proof fn lemma_scan_seq_keeps_free(s: Seq<SpecNode>, st: FreeScan, y: Seq<char>)
    requires
        st.free.contains(y),
    ensures
        scan_seq(s, st).free.contains(y),
    decreases s,
{
    if s.len() > 0 {
        lemma_scan_seq_keeps_free(s.drop_last(), st, y);
        lemma_scan_keeps_free(s.last(), scan_seq(s.drop_last(), st), y);
    }
}

/// Scanning a tree without modules leaves the bound names as they were.
proof fn lemma_scan_keeps_declared(n: SpecNode, st: FreeScan)
    requires
        module_free(n),
    ensures
        scan(n, st).declared == st.declared,
    decreases n,
{
    if n.kind == Kind::EIdent || n.kind == Kind::Ident {
    } else if is_function(n) {
    } else if n.kind == Kind::Import {
    } else {
        lemma_scan_seq_keeps_declared(n.children, st);
    }
}

proof fn lemma_scan_seq_keeps_declared(s: Seq<SpecNode>, st: FreeScan)
    requires
        all_module_free(s),
    ensures
        scan_seq(s, st).declared == st.declared,
    decreases s,
{
    if s.len() > 0 {
        lemma_scan_seq_keeps_declared(s.drop_last(), st);
        lemma_scan_keeps_declared(s.last(), scan_seq(s.drop_last(), st));
    }
}

/// The scan finds every name that occurs free.
proof fn lemma_scan_finds_free(n: SpecNode, st: FreeScan, x: Seq<char>)
    requires
        module_free(n),
        occurs_free(n, x, st.declared),
    ensures
        scan(n, st).free.contains(x),
    decreases n,
{
    if n.kind == Kind::EIdent || n.kind == Kind::Ident {
        if st.free.contains(x) {
        } else {
            assert(st.free.push(x)[st.free.len() as int] == x);
        }
    } else if is_function(n) {
        let inner = declare_all(st, fn_binders(n));
        lemma_all_module_free_index(n.children, 0);
        lemma_all_module_free_index(n.children, 1);
        if n.kind == Kind::EArrow {
            let mid = scan(n.children[0], inner);
            lemma_scan_keeps_declared(n.children[0], inner);
            if occurs_free(n.children[0], x, inner.declared) {
                lemma_scan_finds_free(n.children[0], inner, x);
                lemma_scan_keeps_free(n.children[1], mid, x);
            } else {
                lemma_scan_finds_free(n.children[1], mid, x);
            }
        } else {
            lemma_all_module_free_index(n.children, 2);
            let mid = scan(n.children[1], inner);
            lemma_scan_keeps_declared(n.children[1], inner);
            if occurs_free(n.children[1], x, inner.declared) {
                lemma_scan_finds_free(n.children[1], inner, x);
                lemma_scan_keeps_free(n.children[2], mid, x);
            } else {
                lemma_scan_finds_free(n.children[2], mid, x);
            }
        }
    } else if n.kind == Kind::Import {
    } else {
        lemma_scan_seq_finds_free(n.children, st, x);
    }
}

proof fn lemma_scan_seq_finds_free(s: Seq<SpecNode>, st: FreeScan, x: Seq<char>)
    requires
        all_module_free(s),
        occurs_free_in_any(s, x, st.declared),
    ensures
        scan_seq(s, st).free.contains(x),
    decreases s,
{
    if s.len() > 0 {
        let before = scan_seq(s.drop_last(), st);
        if occurs_free_in_any(s.drop_last(), x, st.declared) {
            lemma_scan_seq_finds_free(s.drop_last(), st, x);
            lemma_scan_keeps_free(s.last(), before, x);
        } else {
            lemma_scan_seq_keeps_declared(s.drop_last(), st);
            lemma_scan_finds_free(s.last(), before, x);
        }
    }
}

/// Every runtime function that occurs free in a module is imported: used as an
/// identifier anywhere (in nested and arrow functions too) where no import,
/// parameter or declaration binds it, it is among the names injected.
pub proof fn lemma_free_runtime_use_imported(module: SpecNode, x: Seq<char>)
    requires
        module.kind == Kind::Module,
        all_module_free(module.children),
        runtime_names().contains(x),
        occurs_free(module, x, globals()),
    ensures
        missing_runtime(module).contains(x),
{
    let st0 = FreeScan { declared: globals(), free: Seq::empty() };
    let st1 = declare_all(st0, binders_seq(module.children));
    lemma_scan_seq_finds_free(module.children, st1, x);
    lemma_missing_runtime_exact(module, x);
}

/// The scan finds free only names that occur free.
proof fn lemma_scan_free_is_free(n: SpecNode, st: FreeScan, y: Seq<char>)
    requires
        module_free(n),
    ensures
        scan(n, st).free.contains(y) ==> st.free.contains(y) || occurs_free(n, y, st.declared),
    decreases n,
{
    if n.kind == Kind::EIdent || n.kind == Kind::Ident {
        let x = name_of(n);
        if scan(n, st).free.contains(y) && !st.free.contains(y) {
            if !(st.declared.contains(x) || st.free.contains(x)) {
                let f = st.free.push(x);
                let k = choose|k: int| 0 <= k < f.len() && f[k] == y;
                if k < st.free.len() {
                    assert(st.free[k] == y);
                }
            }
        }
    } else if is_function(n) {
        let inner = declare_all(st, fn_binders(n));
        lemma_all_module_free_index(n.children, 0);
        lemma_all_module_free_index(n.children, 1);
        if n.kind == Kind::EArrow {
            lemma_scan_free_is_free(n.children[0], inner, y);
            lemma_scan_keeps_declared(n.children[0], inner);
            lemma_scan_free_is_free(n.children[1], scan(n.children[0], inner), y);
        } else {
            lemma_all_module_free_index(n.children, 2);
            lemma_scan_free_is_free(n.children[1], inner, y);
            lemma_scan_keeps_declared(n.children[1], inner);
            lemma_scan_free_is_free(n.children[2], scan(n.children[1], inner), y);
        }
    } else if n.kind == Kind::Import {
    } else {
        lemma_scan_seq_free_is_free(n.children, st, y);
    }
}

proof fn lemma_scan_seq_free_is_free(s: Seq<SpecNode>, st: FreeScan, y: Seq<char>)
    requires
        all_module_free(s),
    ensures
        scan_seq(s, st).free.contains(y) ==> st.free.contains(y) || occurs_free_in_any(s, y, st.declared),
    decreases s,
{
    if s.len() > 0 {
        lemma_scan_seq_free_is_free(s.drop_last(), st, y);
        lemma_scan_seq_keeps_declared(s.drop_last(), st);
        lemma_scan_free_is_free(s.last(), scan_seq(s.drop_last(), st), y);
    }
}

/// The runtime imports of a module are exactly its free runtime uses: a
/// runtime function is imported if and only if it occurs free in the module.
pub proof fn lemma_runtime_imports_exact(module: SpecNode, x: Seq<char>)
    requires
        module.kind == Kind::Module,
        all_module_free(module.children),
    ensures
        missing_runtime(module).contains(x) <==> runtime_names().contains(x) && occurs_free(module, x, globals()),
{
    let st0 = FreeScan { declared: globals(), free: Seq::empty() };
    let st1 = declare_all(st0, binders_seq(module.children));
    lemma_missing_runtime_exact(module, x);
    lemma_scan_seq_free_is_free(module.children, st1, x);
    if runtime_names().contains(x) && occurs_free(module, x, globals()) {
        lemma_free_runtime_use_imported(module, x);
    }
}

/// The runtime functions are LJSP's `map`, `filter`, `reduce`, `first`,
/// `rest`, `cons` and `list`, and nothing else.
pub proof fn lemma_runtime_functions(x: Seq<char>)
    ensures
        runtime_names().contains(x) <==> (x == "map"@ || x == "filter"@ || x == "reduce"@ || x == "first"@
            || x == "rest"@ || x == "cons"@ || x == "list"@),
{
    let r = runtime_names();
    if x == "cons"@ { assert(r[0] == x); }
    if x == "filter"@ { assert(r[1] == x); }
    if x == "first"@ { assert(r[2] == x); }
    if x == "list"@ { assert(r[3] == x); }
    if x == "map"@ { assert(r[4] == x); }
    if x == "reduce"@ { assert(r[5] == x); }
    if x == "rest"@ { assert(r[6] == x); }
}

/// The injected import is `import { n0, n1, .. } from 'ljsp'`: a named import
/// of each missing runtime function under its own name, in order.
pub proof fn lemma_runtime_import_shape(names: Seq<Seq<char>>)
    ensures
        runtime_import(names).kind == Kind::Import,
        runtime_import(names).payload matches SpecPayload::Import(d) && d.src == "ljsp"@
            && d.specifiers.len() == names.len()
            && forall|i: int| 0 <= i < names.len() ==> (#[trigger] d.specifiers[i]).local == names[i]
                && d.specifiers[i].kind == ImportKind::Named && d.specifiers[i].imported is None,
{
}

} // verus!
