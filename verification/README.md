# rsp

A small Lisp-like interpreter whose reader, evaluator, environments and
built-in functions are written in Verus and proved against their
specifications.

## Layout

- `src/` — the verified library:
  - `parser.rs`: the reader, specified by a grammar over character positions;
  - `ast.rs`: expressions and values, their model `SExpr`, and value equality;
  - `interp.rs`: the interpreter state (environment frames, module cache) and
    the `Host` that performs binary64 arithmetic, number formatting, printing
    and file access, with a ghost log of its replies;
  - `env.rs`: environments as frames of bindings;
  - `eval.rs`: the evaluator, specified by the spec function `ev`;
  - `builtins.rs`, `globals.rs`: the native functions, the built-in modules and
    the prelude;
  - `show.rs`, `error.rs`, `format.rs`, `text.rs`: text forms of values and
    errors;
  - `repl.rs`: completeness of prompt input, what the prompt does with a
    line, and syntax highlighting over the results of the regex crate;
  - `laws.rs`: properties of the language proved for all inputs.
- `app/` — the command line, the host (files, standard streams, `f64`), and
  the interactive prompt.
- `tests/` — tests run against the compiled library with a test host.

Numbers are binary64 values held as their bit patterns; the library compares,
negates and tests them on the bits and asks the host for arithmetic and
formatting. Each result is stated for every model of the host that agrees
with the replies it actually gave. Requests to the file system carry the
number of file requests made before them, so a file that appears, changes
or disappears between two `require`s gives two different requests, and no
later reply can contradict an earlier one. The guarantees assume a host that
answers equal requests equally (the same arithmetic on the same bits gives
the same bits); only the interpreter's own request functions add to the log.

A module whose text cannot be read fails to load with an evaluation error
that names the module and the rest of its text from where the reader
stopped: `Module parsing error: Parsing Error in module '<path>': no
expression can be read at "<rest>"`.
