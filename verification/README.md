# Zeta

A small scripting language run by a bytecode stack machine:

```
source → lexer → parser → AST → compiler → bytecode → VM
```

The library in `src/` is verified with Verus. Each stage is specified by a
spec function over mathematical values (`scan_source`, `parse_tokens`,
`compile_program`, `step_spec`), and the executable code is proved to compute
exactly that; the laws of each stage (tokens end with `Eof`, operator
grouping, jump targets, scope exit, what a step of the machine keeps) are
proof functions beside it.

- `lexer_token`, `lexer`: tokens and the scanner.
- `expr`, `stmt`, `precedence`, `parser`: the syntax tree and a Pratt parser.
- `opcode`, `chunk`, `value`, `compiler`: bytecode, values and code generation.
- `vm`: the machine, one instruction per `step`. Arithmetic on numbers is
  handed to the host (`Step::Numeric`, answered with `resume`), and so is
  output (`Step::Print`).
- `repl`: whether a REPL buffer is a complete input.
- `pipeline`: source text to top-level chunk.

`app/main.rs` is the program around it: it reads a file or runs a REPL, does
the floating-point arithmetic the machine asks for, and prints.
