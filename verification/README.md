# MiniLang correctness core

A Verus library with the parts of Qydrel, a workbench for the MiniLang compiler, that decide
whether the compiler is right:

- an interpreter of MiniLang syntax trees, proved to compute the language's meaning, and its
  comparison with what compiled backends show;
- evidence reports: what is made of a corpus of programs, of fuzz runs and of documented bugs, the
  verdict on it, and its text as JSON and as Markdown.

`src/` is the verified library. `tests/` holds its tests. `app/` reads directories, runs the
compiler and the fuzzer, and writes reports; of the reports' contents it only computes the
percentages, which are floating point.

What Verus takes on trust is in `src/text.rs`: `String::push`, and the standard library's `{:?}`
notation of a string.
