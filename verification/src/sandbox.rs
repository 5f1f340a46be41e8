//! The scripts the compile-time sandbox runs: a macro module turned into a
//! script that registers its exports, and the call of one exported macro.
use vstd::prelude::*;
use crate::text::{chars_of, concat, has_prefix, occurs_at, occurs_at_exec, push_char, replace_all, replace_text, starts_with, string_of};

verus! {

/// Whether `pat` occurs anywhere in `s`.
pub open spec fn contains(s: Seq<char>, pat: Seq<char>) -> bool {
    exists|i: int| occurs_at(s, pat, i)
}

/// Whether a character may stand in an identifier.
pub open spec fn is_ident_char(c: char) -> bool {
    ('a' <= c && c <= 'z') || ('A' <= c && c <= 'Z') || ('0' <= c && c <= '9') || c == '_' || c == '$'
}

/// The length of the identifier that `s` begins with.
pub open spec fn ident_len(s: Seq<char>) -> nat
    decreases s.len(),
{
    if s.len() > 0 && is_ident_char(s[0]) {
        1 + ident_len(s.skip(1))
    } else {
        0
    }
}

/// The length of the first line of `s`, without its line break.
pub open spec fn line_len(s: Seq<char>) -> nat
    decreases s.len(),
{
    if s.len() == 0 || s[0] == '\n' {
        0
    } else {
        1 + line_len(s.skip(1))
    }
}

/// An import from a macro module as a script reads it: a constant bound to
/// that module's exports (`import { a, b as c } from "m"` becomes
/// `const { a, b: c } = globalThis.macroExports["m"]`, and
/// `import * as ns from "m"` becomes `const ns = globalThis.macroExports["m"]`).
pub open spec fn import_binding(line: Seq<char>) -> Seq<char> {
    let a = "const "@ + line.skip(7);
    let b = replace_all(a, "* as "@, ""@);
    let c = replace_all(b, " as "@, ": "@);
    let d = replace_all(c, " from "@, " = globalThis.macroExports["@);
    let e = replace_all(d, ".macro.js'"@, ".macro.js']"@);
    replace_all(e, ".macro.js\""@, ".macro.js\"]"@)
}

/// One line of a macro module as a script reads it: an import from another
/// macro module becomes a binding of its exports, and an exported function
/// declaration the assignment of that function to `exports`.
pub open spec fn shim_line(line: Seq<char>) -> Seq<char> {
    if has_prefix(line, "import "@) && contains(line, ".macro.js"@) {
        import_binding(line)
    } else if has_prefix(line, "export function "@) {
        let rest = line.skip(16);
        "exports."@ + rest.take(ident_len(rest) as int) + " = function "@ + rest
    } else {
        line
    }
}

/// Every line of a text shimmed.
pub open spec fn shim_lines(s: Seq<char>) -> Seq<char>
    decreases s.len(),
{
    let k = line_len(s);
    if k < s.len() {
        shim_line(s.take(k as int)) + seq!['\n'] + shim_lines(s.skip(k + 1 as int))
    } else {
        shim_line(s)
    }
}

/// The source of a macro module as the sandbox runs it: the runtime import of
/// `defineMacro` removed, `export const` turned into properties of `exports`,
/// then each line shimmed.
pub open spec fn transpiled(code: Seq<char>) -> Seq<char> {
    let a = replace_all(code, "import { defineMacro } from \"@ljsp/macro-runtime\""@, ""@);
    let b = replace_all(a, "import { defineMacro } from '@ljsp/macro-runtime'"@, ""@);
    let c = replace_all(b, "export const "@, "exports."@);
    shim_lines(c)
}

/// Whether `pv` occurs anywhere in `sv`.
fn contains_chars(sv: &Vec<char>, pv: &Vec<char>) -> (b: bool)
    ensures
        b == contains(sv@, pv@),
{
    let mut i: usize = 0;
    while i < sv.len()
        invariant
            i <= sv.len(),
            forall|j: int| 0 <= j < i ==> !occurs_at(sv@, pv@, j),
        decreases sv.len() - i,
    {
        if occurs_at_exec(sv, pv, i) {
            return true;
        }
        i = i + 1;
    }
    let last = occurs_at_exec(sv, pv, sv.len());
    proof {
        if !last {
            assert forall|j: int| !occurs_at(sv@, pv@, j) by {
                if 0 <= j < sv.len() {
                } else if j == sv.len() {
                } else {
                }
            }
        }
    }
    last
}

fn is_ident_char_exec(c: char) -> (b: bool)
    ensures
        b == is_ident_char(c),
{
    ('a' <= c && c <= 'z') || ('A' <= c && c <= 'Z') || ('0' <= c && c <= '9') || c == '_' || c == '$'
}

/// The length of the identifier that begins at `from`.
fn ident_len_at(v: &Vec<char>, from: usize) -> (n: usize)
    requires
        from <= v.len(),
    ensures
        n == ident_len(v@.skip(from as int)),
        from + n <= v.len(),
{
    let mut k: usize = from;
    while k < v.len() && is_ident_char_exec(v[k])
        invariant
            from <= k <= v.len(),
            ident_len(v@.skip(from as int)) == (k - from) + ident_len(v@.skip(k as int)),
        decreases v.len() - k,
    {
        assert(v@.skip(k as int).skip(1) =~= v@.skip(k + 1));
        k = k + 1;
    }
    k - from
}

/// The characters of `v` from `from` up to `to`.
fn segment(v: &Vec<char>, from: usize, to: usize) -> (r: Vec<char>)
    requires
        from <= to <= v.len(),
    ensures
        r@ == v@.subrange(from as int, to as int),
{
    let mut r: Vec<char> = Vec::new();
    let mut k: usize = from;
    while k < to
        invariant
            from <= k <= to,
            to <= v.len(),
            r@ == v@.subrange(from as int, k as int),
        decreases to - k,
    {
        r.push(v[k]);
        assert(r@ =~= v@.subrange(from as int, k + 1));
        k = k + 1;
    }
    r
}

/// One line of a macro module shimmed (`shim_line`).
fn shim_line_text(line: &String) -> (r: String)
    ensures
        r@ == shim_line(line@),
{
    proof {
        reveal_strlit("import ");
        reveal_strlit("export function ");
        reveal_strlit("* as ");
        reveal_strlit(" as ");
        reveal_strlit(" from ");
        reveal_strlit(".macro.js'");
        reveal_strlit(".macro.js\"");
    }
    let lv = chars_of(line.as_str());
    let pat = chars_of(".macro.js");
    if starts_with(line, "import ") && contains_chars(&lv, &pat) {
        let rest = string_of(&segment(&lv, 7, lv.len()));
        assert(lv@.subrange(7, lv@.len() as int) =~= line@.skip(7));
        let a = concat("const ", rest.as_str());
        let b = replace_text(&a, "* as ", "");
        let c = replace_text(&b, " as ", ": ");
        let d = replace_text(&c, " from ", " = globalThis.macroExports[");
        let e = replace_text(&d, ".macro.js'", ".macro.js']");
        replace_text(&e, ".macro.js\"", ".macro.js\"]")
    } else if starts_with(line, "export function ") {
        let n = ident_len_at(&lv, 16);
        let name = string_of(&segment(&lv, 16, 16 + n));
        let rest = string_of(&segment(&lv, 16, lv.len()));
        assert(lv@.subrange(16, lv@.len() as int) =~= line@.skip(16));
        assert(lv@.subrange(16, 16 + n) =~= line@.skip(16).take(n as int));
        let a = concat("exports.", name.as_str());
        let b = concat(a.as_str(), " = function ");
        concat(b.as_str(), rest.as_str())
    } else {
        string_of(&lv)
    }
}

/// Every line of a text shimmed (`shim_lines`).
fn shim_lines_text(s: &String) -> (r: String)
    ensures
        r@ == shim_lines(s@),
{
    let sv = chars_of(s.as_str());
    let mut out = String::new();
    let mut start: usize = 0;
    assert(sv@.skip(0) =~= sv@);
    loop
        invariant
            start <= sv.len(),
            sv@ == s@,
            out@ + shim_lines(sv@.skip(start as int)) == shim_lines(sv@),
        decreases sv.len() - start,
    {
        let mut end: usize = start;
        let mut line: Vec<char> = Vec::new();
        while end < sv.len() && sv[end] != '\n'
            invariant
                start <= end <= sv.len(),
                line@ == sv@.subrange(start as int, end as int),
                line_len(sv@.skip(start as int)) == (end - start) + line_len(sv@.skip(end as int)),
            decreases sv.len() - end,
        {
            assert(sv@.skip(end as int).skip(1) =~= sv@.skip(end + 1));
            line.push(sv[end]);
            assert(line@ =~= sv@.subrange(start as int, end + 1));
            end = end + 1;
        }
        let ghost rest = sv@.skip(start as int);
        assert(line_len(sv@.skip(end as int)) == 0);
        assert(rest.take(line_len(rest) as int) =~= line@);
        let shimmed = shim_line_text(&string_of(&line));
        let o2 = concat(out.as_str(), shimmed.as_str());
        if end < sv.len() {
            assert(rest.skip(line_len(rest) + 1 as int) =~= sv@.skip(end + 1));
            out = o2;
            push_char(&mut out, '\n');
            assert(out@ + shim_lines(sv@.skip(end + 1)) =~= o2@ + (seq!['\n'] + shim_lines(sv@.skip(end + 1))));
            start = end + 1;
        } else {
            assert(rest =~= line@);
            return o2;
        }
    }
}

/// The text in front of a module's source in its script.
pub open spec fn module_head() -> Seq<char> {
    "(function(exports) { \n                const { defineMacro } = globalThis;\n                "@
}

/// The script that runs a macro module: its exports land in
/// `globalThis.macroExports[path]`.
pub open spec fn module_script(path: Seq<char>, code: Seq<char>) -> Seq<char> {
    module_head() + transpiled(code) + " \n            })(globalThis.macroExports['"@ + path + "'] = {});"@
}

/// The script that calls the macro `name` of the module `path` on the
/// arguments `args`, a JSON array in text.
pub open spec fn call_script(path: Seq<char>, name: Seq<char>, args: Seq<char>) -> Seq<char> {
    "globalThis.macroExports['"@ + path + "']['"@ + name + "'].fn(globalThis.ctx, ..."@ + args + ")"@
}

/// The script that runs a macro module (the text `load_macro_module` executes).
pub fn macro_module_script(path: &String, code: &String) -> (s: String)
    ensures
        s@ == module_script(path@, code@),
{
    proof {
        reveal_strlit("import { defineMacro } from \"@ljsp/macro-runtime\"");
        reveal_strlit("import { defineMacro } from '@ljsp/macro-runtime'");
        reveal_strlit("export const ");
    }
    let a = replace_text(code, "import { defineMacro } from \"@ljsp/macro-runtime\"", "");
    let b = replace_text(&a, "import { defineMacro } from '@ljsp/macro-runtime'", "");
    let c = replace_text(&b, "export const ", "exports.");
    let d = shim_lines_text(&c);
    let s1 = concat("(function(exports) { \n                const { defineMacro } = globalThis;\n                ", d.as_str());
    let s2 = concat(s1.as_str(), " \n            })(globalThis.macroExports['");
    let s3 = concat(s2.as_str(), path.as_str());
    concat(s3.as_str(), "'] = {});")
}

/// The script that calls one macro (the text `call_macro` executes).
pub fn macro_call_script(path: &String, name: &String, args: &String) -> (s: String)
    ensures
        s@ == call_script(path@, name@, args@),
{
    let s1 = concat("globalThis.macroExports['", path.as_str());
    let s2 = concat(s1.as_str(), "']['");
    let s3 = concat(s2.as_str(), name.as_str());
    let s4 = concat(s3.as_str(), "'].fn(globalThis.ctx, ...");
    let s5 = concat(s4.as_str(), args.as_str());
    concat(s5.as_str(), ")")
}

} // verus!
