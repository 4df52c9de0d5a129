# lib — a small interpreter, verified

A lexer fragment, a recursive-descent parser and a tree-walking evaluator for a
small imperative language (integers, strings, booleans, characters, arrays,
variables, constants, `if`, `while`, calls into a host library), written in
Verus. Every executable function in `src/` carries a contract over a
mathematical model, and Verus proves the code against it.

## Layout

- `src/span.rs`, `src/text.rs`, `src/errors.rs`: source spans, string helpers
  (decimal formatting), and the error type with its labels and help text.
- `src/tokens.rs`, `src/lexer.rs`: tokens, and the scanning of character
  literals with their escapes (`scan_char_literal` is the model).
- `src/ast.rs`: expressions and statements, each with a model (`ExprView`,
  `StmtView`).
- `src/parser.rs`, `src/parse_expr.rs`, `src/parse_stmt.rs`: the parser. The
  spec functions `p_expression`, `p_statement`, `p_const`, `p_if`, `p_while`
  and friends say what each parse gives and where it leaves the cursor; each
  `Parser::parse_*` method is proved to agree with them, diagnostics included.
- `src/value.rs`, `src/environment.rs`, `src/suggest.rs`: runtime values,
  the variable environment (names are distinct; the first slot of a name is
  its binding), and the "did you mean" suggestion by edit distance.
- `src/operators.rs`: the operators (`binary_result`, `unary_result`), with
  checked integer arithmetic.
- `src/evaluator.rs`, `src/evaluate.rs`, `src/execute.rs`: the evaluator. The
  library makes no call into the host library itself: a `Host` holds the
  answers to a run's calls, in order, and the first call past the last answer
  is recorded in `Host::request` and stops the run. `Host::wf` ties the log of
  calls to the answers and the request. The spec functions `eval`, `exec_stmt`
  and `exec_block` define evaluation over that log, and each run is proved to
  give exactly what they give on it.
- `src/laws.rs`: properties that relate several operations (reading back what
  was written, constants staying fixed, blocks running in sequence, ...).
- `tests/`: tests that run the compiled library.
- `app/`: the loop that makes the host calls a run asks for and runs it
  again with their answers, and printing of the errors the library collects.
