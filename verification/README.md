# sprite

A small, embeddable scripting language: numbers (IEEE binary64), strings,
booleans, `nil`, first-class functions with closures, `let`, `if`/`else`,
`while`, `return`, and a `print` builtin.

```
fn make_adder(n) {
    fn adder(x) { return x + n }
    return adder
}
let add5 = make_adder(5)
print(add5(10))   # 15
```

## Layout

- `src/` is the library, written in Verus and verified:
  - `lexer` turns source text into tokens; `grammar` defines, as
    mathematics, what the recursive-descent `parser` produces (including
    its nesting-depth bound); `ast` is the syntax tree.
  - `semantics` defines what running a program means; `interpreter` is
    proved to compute exactly that; `value` holds run-time values.
  - `number` and `numtext` handle binary64 numbers: bit-level operations
    are verified, rounding arithmetic and decimal conversion are done by
    `rustc_apfloat` behind trusted wrappers.
  - `laws` states and proves properties of the language as a whole (depth
    bounds, error classification, equality and ordering rules, sessions).
  - `lib.rs` has `eval` and `Session`, the entry points.
- `app/` is the `sprite` command: `sprite run <file>` or an interactive prompt.
- `tests/` runs the library on concrete programs.

The library does no I/O: lines written by `print` are collected and handed
out by `Session::take_output`, which the command line prints after each run.
