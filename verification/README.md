# razel-bzl-api

The seam between a build engine and the evaluation of Starlark, written in Verus.

A `.bzl` file is evaluated by a `BzlEvaluator`; what comes out is a `BzlModule`, in a value model that belongs
to no evaluator. The engine keys its work by content, so values and environments have a canonical encoding,
and the library proves what the encoding tells apart.

* `src/` is the library. Every function has a contract over the mathematical values of `src/model.rs`, and
  what holds of several functions together stands in the `law_` functions.
* `tests/` runs the library on concrete values.
* `app/` has the conformance suite as assertions, for the tests of an evaluator.

Three things are believed and not proved: that `String::from(&str)` keeps the characters, that the conversion
of a type into itself keeps the value, and that an evaluator answers the same question alike every time.
