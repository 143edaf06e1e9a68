# moth compiler front end, verified

A small C-style language with user-defined operators. The library (`src/`) holds the compiler,
each stage specified and proved with Verus:

- `frontend::lexer` — source text to tokens; `frontend::parser` — tokens to a syntax tree;
  `frontend::reassoc` — binary operations regrouped by precedence and associativity
  (`frontend::grouping` proves the result grouped);
- `middle::varcheck` — declared-before-use, duplicate, unused-name and dead-code checks;
- `backend::simplify` — lowering to calls and lambdas, with constant folding (a folded floating
  point constant is kept as the operations that make it, and the program computes it);
- `compile` — the stages in order; `error` — messages and their rendering against the code;
- `environment` — nested scopes; `printing`, `backend::lowprinting` — trees as text.

`app/` is the command-line program: it reads files or a line at a time, and runs the lowered
program with an interpreter whose values include floats and closures sharing scopes.
