# Grindlang

A small, statically typed scripting language with Lua's syntax, for decisions and
calculations inside a host program. A script is a module: it evaluates to a table of
exported functions and constants. It reaches the host only through functions that the host
registers and memory that the host binds.

The library in `src/` is written in Verus. Every function states what it computes, and the
statements are proved.

| module | what it holds |
| --- | --- |
| `text`, `diagnostics`, `names`, `spanmap` | text, spans and rendered diagnostics, maps in the order of their names |
| `numeral`, `number` | numerals as they are written, numbers by their bit patterns |
| `lexer`, `grammar`, `ast`, `parser` | source text to tokens to syntax trees |
| `annotations` | `---@` comments |
| `resolve`, `places`, `uses`, `capture` | names to symbols, that the names of a source stand apart and every use of one is bound, and which symbols closures capture |
| `types`, `unification`, `check` | types, their unification, and type checking |
| `ir` | the typed intermediate representation: lowering, its verifier, and a machine for it |
| `runtime` | builtins, representation classes, layouts, the arena |
| `value` | values and the heap |
| `interp` | the tree-walking interpreter |
| `agreement` | where the interpreter and the machine are proved to agree: modules of functions of scalars, with branches, loops, builtins, host functions and calls of one another; and compiled code with the machine: functions of numbers and bools whose intermediate values stay in their block, with branches, loops and calls |
| `codegen` | machine code for a module, the types of its operands, and the runtime that it calls |
| `api` | what hosts declare, and how their values become script values |
| `cli` | the command line of the runner |

Nothing in the library computes with floats. Where a script does, the interpreter and the
machine stop with a request and go on with its answer, and compiled code has instructions
for it. The answers come from `app/`.

`app/` is the program around the library: the command line runner, its cache file, native
code by cranelift, and an embedding interface with typed closures.
