# Makovi

Makovi is a small scripting language compiled just in time. This crate holds its
compiler, written in Verus: its functions state what they do in `requires` /
`ensures` contracts, and Verus proves that the code meets them. Where a stage hands
work to Cranelift, the contracts say what is handed over and what the library does
with the answer; what Cranelift makes of it is not proved here.

## Stages

- `compiler::lexer` — breaks the source into tokens: the longest slice that a token
  matches, fixed texts winning over patterns; the token found from a position is unique.
- `compiler::parser` — builds, for each function, a list of instructions (calls,
  assignments, returns and structured control flow). Blocks are nested by indentation.
  The control flow of every function is well nested, and every call refers to a known
  function. An expression is stated over the tokens it reads (`parser::grammar`): the
  calls it makes in the order they run, operators binding by priority and grouping from
  the left, the operand that holds its value and the token where reading stops. A
  `while` loop is stated as its loop, the code and value of the expression after
  `while`, its break and a body read as a block one level deeper, up to where the loop
  ends; an `if` / `else if` / `else` chain as well nested links joined by `Else` and
  closed by one `IfEnd(n)` over its `n` links, the first link's condition being the
  expression after `if`, and each link's block and the final `else` block read as blocks
  one level deeper. A block is read as a run of statements, one after the other, each
  starting a line of its nesting and shaped by the token it starts with, and ends on the
  first line of another nesting.
- `compiler::type_inference` — creates one instance of a function per list of argument
  types, infers the type of each variable and of the return value, and reports type
  errors. It terminates on every module, every instance it completes has known types,
  and what it records of an instance is the inference of its instructions, one after
  the other.
- `compiler::backend` — lowers the instances to Cranelift IR. The calls into Cranelift
  stand behind small trusted wrappers in `backend::ir_builder`, whose contracts follow
  the checks that Cranelift's function builder makes on blocks and values; the library
  tracks the state of each block and refuses a step that Cranelift would reject. Every
  instruction it inserts (constants, reads and definitions of variables, calls, jumps,
  branches and returns) is recorded in a ghost log, and the lowering of each single
  instruction (calls, assignments, returns, the start, `else` and end of an `if`, the
  start and end of a loop) is stated over that log, in the step that lowers it; the
  lowering of a whole function is not stated as one. Linking in memory is done by the
  program in `app/`.
- `compiler::hir` — the definitions and instances that the stages share, with their
  textual listings.

The module `parser` at the root reads a brace-delimited syntax:
a function with its parameters and its result, whose statements are assignments,
`if` / `else`, `while` and operations by precedence. `parser::syntax` states each rule as
a mathematical function of the input and a position, with ordered choices, and
`parser::rules` reads the input as those functions say.

The modules `lexer`, `error`, `ast` and `lazy_parser` at the root hold standalone pieces:
token results with their line and nesting, error messages with their spans, the table
of binary operators, and expression offsets.

## Layout

- `src/` — the verified library.
- `tests/` — tests of the library, run with the real Cranelift.
- `app/` — the compiler as a program around the library: the JIT module, running the
  compiled entry point, and error messages.
