# A verified tour of Rust

A library of small examples of the language's core features, each function
with a contract proved by Verus, and a program that prints the tour.

- `src/` — the verified library, one module per topic:
  - `numbers`: reading an `i32` from text and writing one, with the proof that
    writing then reading gives the number back;
  - `basics`, `shapes`, `errors`, `generics_traits`, `iterators`, `countdown`,
    `collections`, `patterns`, `lifetimes`, `advanced_traits`,
    `modules_demo`, `advanced_modules`: the examples themselves;
  - `std_text`: the contracts taken on trust for the std string operations
    vstd does not specify (`String::push`, `str::to_uppercase`), and verified
    character helpers (`chars_of`, `is_whitespace`).
- `tests/` — tests of the library, many of them against std's own behaviour.
- `app/` — the program that prints the tour; floating-point examples, threads,
  smart pointers and `unsafe` code live here.
