# Disbelief

Small interpreters for experimenting with coroutines, verified with Verus.

- `src/tree.rs`: a continuation-passing tree walker for numbers, addition,
  `suspend` and `resume`.
- `src/closure.rs`: a closure compiler for the same language; compiling folds
  what does not wait on a coroutine, and running the compiled program gives
  the value. A proof shows it agrees with the tree walker.
- `src/syntax.rs`, `src/effects.rs`: a language with applications of
  built-ins, quotation, coroutines, effect handlers and raised effects.
  Compiling evaluates the effects of handlers and raises ahead of running;
  a proof shows the compiled program runs to what the expression evaluates to.
- `src/text.rs`: numbers, strings and coroutines as text; `describe` methods write values and expressions.

Continuations are first-order data, so a coroutine is a plain value. Each
interpreter runs an abstract machine whose steps are proved to shrink it;
the equations of the continuation-passing interpreters are proved of the
machines. `app/main.rs` runs the demonstration programs.
