# calculator

A terminal calculator for arithmetic expressions with `+ - * / ^`,
parentheses and negative numbers written as `(-5)`. It works an expression out
one operation at a time: the operation nested deepest first, among those the
one that binds most strongly, the leftmost among equals. Each intermediate
expression is printed, parentheses that make no difference are dropped first,
and the answer is printed at the end.

Layout:

- `src/` — the verified library (Verus):
  - `text.rs` — digits, white space, trimming, decimal writing and reading of integers;
  - `my_extension.rs` — queries on the text of an expression;
  - `operation.rs` — operations, their operands, and how one is worked out
    (exactly, or as a float computation handed to the caller);
  - `symbols.rs` — reading an expression into symbols, its checks, the choice of
    the next operation, the ordering of operators, and dropping extra parentheses;
  - `expression.rs` — an expression being worked out, step by step;
  - `text_expression.rs` — the same tasks done directly on the text;
  - `precedence.rs` — comparing operations by precedence;
  - `line_editor.rs` — what each key does to the line being typed;
  - `laws.rs` — properties of the library, each proved for every input that
    meets its stated premises.
- `app/` — the program: terminal input, the float computations, printing.
- `tests/` — tests on concrete values.
