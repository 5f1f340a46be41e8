# ljsp-macro-compiler-rs

A compiler for JavaScript written against the LJSP macro system: macro calls
are expanded outside-in to a fixed point, `recur` calls are checked and lowered
to loops, and the LJSP runtime functions a module uses are imported.

The library (`src/`) is verified with Verus. It works on its own syntax tree
(`ast`), a uniform tree of JavaScript nodes:

- `ast`, `json`, `text`: the tree, JSON values, and text helpers.
- `marshal`, `roundtrip`: syntax to the ESTree-like JSON that macro code sees,
  and back; the round trip is proved.
- `template`: syntax templates, whose placeholders are replaced by values; a
  placeholder left where no value can stand (a property key or name) makes
  the template fail.
- `expander`: macro bindings, lexical scope, and expansion as a function of the
  sandbox's replies to its requests (macro calls and template parses); a
  macro call standing as a statement, at any depth, may yield a statement; a
  macro that fails, or whose result is no syntax for the place of its call,
  makes expansion fail at that call (the two told apart), and nesting deeper
  than allowed fails with the expansion stack. The module expansion yields
  holds no macro call.
- `recur`: the checks on `recur` (a call is accepted only in tail position:
  through blocks, `if` branches, and `try`/`catch` without `finally`, and as
  the expression of a `return` anywhere in its function) and its lowering to
  a `while (true)` loop: each `recur` reassigns every parameter (a
  destructuring one as a whole) and continues the loop; the loop is labeled
  `__recur` only where a `recur` stands inside a loop of its own, and a body
  that may run to its end is followed by `return;`.
- `runtime`: the free runtime names of a module (those that no import,
  parameter or hoisted declaration binds in scope) and their import.
- `sandbox`: the scripts the compile-time sandbox runs: a macro module's
  exports shimmed onto an `exports` object, and its imports from other macro
  modules bound to those modules' loaded exports.

The program (`app/`) parses and prints JavaScript with swc, converts between
swc's tree and the library's, runs macro code in a V8 sandbox (loading each
macro module after the macro modules it imports), and drives the expansion by
answering its requests.
