# lib — a verified type checker and bytecode lowerer

The front end of a small statically typed, reference-counted language: a
type checker that reports diagnostics, and a lowerer that turns a checked
module into SSA-style bytecode (basic blocks of instructions over virtual
registers). Every function is verified with Verus against its contract.

## Layout

- `src/scoped_locals.rs` — a stack of scopes of local bindings; innermost
  binding wins, popping a scope restores the outer bindings.
- `src/span.rs`, `src/ast.rs` — source spans and the syntax tree.
- `src/types.rs` — type structure and the type interner (one id per type).
- `src/intern.rs` — the string interner (one symbol per string).
- `src/symbol_table.rs`, `src/diagnostic.rs` — editor symbols and checker
  diagnostics with their messages.
- `src/checker/` — the checker: built-in functions (`builtins`), the
  declaration pass (`collect`), argument matching (`args`), the typing
  rules as spec functions (`typing`), expression and statement checking
  (`expr`, `ops`, `patterns`), item checking (`items`), and generic
  functions (`generics`: templates, type substitution, inferring type
  arguments, and registering an instance under its mangled name).
- `src/lower/` — the lowerer: per-function state (`context`), expressions
  and statements (`expr`), calls and default arguments (`calls`), loops and
  casts (`control_flow`), enums and `match` (`patterns`), and integer
  constants (`consts`).
- `src/ir.rs` — the bytecode.

The central contract is that `Checker::check_expr` returns exactly the type
that `checker::typing::expr_ty` gives the expression in the current context,
and that the lowerer types expressions the same way. Beyond that:

- the checker states which diagnostics each declaration adds while items
  are collected, what the statements and final expression of each body
  report, and that a module whose bodies are `clean` (well-typed
  expressions, calls that fit, assignments to mutable locals, blocks)
  reports nothing more than a missing `main`; an operator or cast applied
  to an operand of the error type gives the error type and reports nothing
  of its own (`apply_binary`, `apply_unary`, `apply_cast`);
- the lowerer states where each expression's value ends up
  (`lowered_value`), the program's functions in item order with their
  names and signatures, that the instructions lowering each statement of a
  body gives lie in that function's blocks (`stmts_in`; for a call with
  positional arguments, the arguments' too), that each function
  returns the value of its body's final expression, the arm tests of a `match`, how call arguments
  and defaults fill the parameters, and the retains and releases around
  calls and function exits.

Reference counting: the caller retains the struct arguments of a call to a
user-defined function, the callee releases its struct and enum parameters
before returning, and a block releases the reference-counted locals it
declared (other than its own value) when it ends.

## What the language here leaves out

The syntax tree and the checker cover functions with named and default
arguments, structs, enums with payloads, `impl` blocks with methods and
operator methods, extern declarations, type aliases, `let`/`const`,
`if`/`if let`/`match`, `while`/`loop`/`for` over ranges, `break`/`continue`,
`return`, `defer`, `?`, casts and template strings. The syntax tree has no
syntax for type parameters: generic functions enter through
`checker::generics` (a `GenericFunctionDef` is instantiated with
`Checker::monomorphize_function`, its body checked with
`check_generic_fn_body` and lowered with `Lowerer::lower_function_with_subst`),
generic structs and enums are instantiated with
`monomorphize_struct_concrete` and `monomorphize_enum_concrete`, and type
expressions are names or `()`, so substitution replaces a type parameter's
name; the methods of a generic impl block are registered for an instance
with `instantiate_impl_methods` and checked with `check_generic_impl_block`;
generic interfaces are kept as templates only. There are no closure expressions or trailing
lambdas, no tuples, arrays or maps (nor tuple or array patterns), no items
nested in function bodies and no floating-point literals; a `match` is not
checked for exhaustiveness. The lowerer can lower
the thunk of a closure given as a `PendingClosure` (its parameters,
captures and body), but nothing in the syntax tree produces one.

Default arguments are expanded by lowering the default expression at the
call site. That expansion is bounded: a default that (through other
defaults) would be expanded more than 64 levels deep is lowered as the unit
value instead.

## Tests

`tests/` holds scenario tests for the checker and the lowerer (each program
is written out as its syntax tree) and tests of the supporting structures.
