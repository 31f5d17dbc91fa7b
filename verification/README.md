# Pufferfish

Pufferfish is a compiler for a small graphics programming language. A program
is a list of lines, each ended by `;`: variable declarations (`var x = 1.0;`),
assignments, expressions (numbers, strings, names, `+ - * /` grouped to the
right, calls) and function declarations (`fn f(a, b) { ... };`). `print(e)`
prints a number with two decimals, and `anim(xy)` or `anim(xy, shape)` animates
a shape: `xy` sets the `x` and `y` of the shape for each frame, and `shape`, if
given, picks its texture (texture 0 otherwise).

The compiler emits x86-64 assembly in NASM syntax; the command-line driver
assembles it with `nasm`, asks `gcc` where the C start-up files are, and links
with `ld` against SDL2 and the graphics library.

## Layout

- `src/` is the library, verified with Verus:
  - `ast_types.rs` and `ast_types/grammar.rs`: the syntax tree, the grammar as
    spec functions, and the parser proved to follow it;
  - `ast_parser.rs` and `ast_parser/`: code generation, stated as spec functions
    over models of the generator and the symbol table, with the checks that a
    program can be compiled and the laws of the code generator;
  - `asm_generator/`: instructions, the assembly generator and its rendering,
    the calling convention and the animation loop;
  - `code_generator.rs`: a plain text generator for 32-bit programs;
  - `errors/`: the compiler's errors and their messages;
  - `text.rs`: small string functions with their specifications.
- `tests/`: tests of the library on concrete programs and values.
- `app/`: the command-line driver (argument handling, file I/O, `nasm` and `ld`).
