# gleam_typing

A type checker for a subset of the Gleam language, written in Verus.
It parses Gleam statements and modules, infers their types with
Hindley–Milner unification and generalisation, checks that case
expressions and assignments are exhaustive, and prints types the way the
Gleam compiler does (`fn(a, List(b)) -> #(a, b)`).

Modules under `src/`:

- `types`: type terms, substitutions and unification (with proofs that a
  successful unification is most general and that a failed one has no
  unifier).
- `print`: printing of types, with a specification of the printed text.
- `lexer`, `ast`, `parser`: the front end.
- `env`: types and values in scope, type constructors and their parts.
- `args`: placing labelled and unlabelled call arguments.
- `exhaustive`: the usefulness test behind exhaustiveness checking.
- `infer`: inference of expressions, patterns and statements.
- `typing`: the typing judgment that inference is proved sound against.
- `module`: checking whole modules in dependency order.
- `main_function`: whether a value can be run as a module's `main`.
- `error`: type errors and their descriptions.
- `api`: the entry points used by the tests (`infer`, `infer_module`,
  `compile_module`, `module_error`, ...).

Among what is proved:

- Soundness of inference against a declarative typing judgment
  (`typing`): the type found for an expression is a type it has, under
  the substitution inference ends with and under every refinement of it.
  The judgment covers literals, operators, local variables, references to
  module level values and to values of imported modules (as instances of
  their type schemes), record access (a field of the record's named
  type), record update (each new value typed by the constructor's
  parameter of that label, the other fields kept), tuples, lists, tuple
  indexing, blocks with `let`, anonymous functions, calls (each argument
  typed by the parameter it is placed at), pipes, bit arrays, `todo`,
  `panic` and case expressions, and the patterns of `let` and of case
  clauses with what they bind, constructor patterns (qualified, labelled
  or with `..`) included. Every form of expression and pattern is
  covered.
- A module that `check_module` accepts has every function body and
  constant value well typed under the judgment above, with the module's
  named types, aliases and importable modules in scope (each member
  checked against the module level values known when it was checked);
  a single member that reports no error is well typed at the type
  prepared from its annotations (`check_member`).
- Statements checked with `check_statements` are well typed with exactly
  the prelude's names in scope.
- Lexing fails only at an open string, a lone `&` or a character that
  begins no token, and succeeds on text free of them; type annotations
  are accepted exactly when every name in them is known with the right
  number of arguments.
- A successful unification is most general and a failed one has no
  unifier; inference only ever refines its substitution.
- The bindings made inside an expression are gone after it, and a
  variable has the type of its innermost binding.
- An exhaustiveness check that passes leaves no value of the expected
  shapes unmatched.
- Call arguments are placed by their labels, the others in order.
- Renaming or generalising the variables of a type does not change how it
  prints.
- A module's exported values have fully generalised types and distinct
  names, they are listed sorted with strictly increasing names, a checked
  module belongs to the package `thepackage`, and an internal module
  exports nothing public.

The tests under `tests/` check inferred types and reported errors on
Gleam source text.
