# krez

A compiler for the small Krez language, written as a Verus library: a lexer, a
parser, a reporter of diagnostics and a code generator for QBE, each with a
contract that Verus proves.

```
fn main(argc: i32, args: &[string]) i32 {
    fix a: i32 = 4;
    mut b: bool = true;
    if a < 3 {
        b = -1;
    } elif a > 3 {
        a = 1;
    } else {
        a = 0;
    }
    ret a;
}
```

## Layout

- `src/text.rs`: character sequences, decimal texts, UTF-8 lengths.
- `src/session`: sources (tabs expanded, line starts) and the diagnostics emitted.
- `src/lexer`: tokens, and the standard lexer with its specification `lex_all`.
- `src/parser`: statements, expressions, types; `grammar.rs` states the language
  as spec functions, `standard.rs` is the parser proved against them.
- `src/report`: diagnostics and the standard reporter, which returns the lines to
  show (coloured through the `colored` crate).
- `src/backend`: the `Backend` trait, the QBE intermediate representation, its
  specification (`codegen.rs`) and the generator proved against it (`qbe.rs`).
- `src/visitor`: the collector of public functions under mangled names.
- `src/compiler.rs`: the compiler, generic over its lexer and parser (the `Lexer`
  and `Parser` traits), which runs every source through the phases in order.
- `app/main.rs`: the command line; it reads the files, prints the diagnostics,
  prints the module through the `qbe` crate and writes one `.ssa` file per source.

The laws the library keeps are public proof functions named `law_*`, next to the
specifications they speak of.
