# reclass

The data model of a ReClass-style memory explorer, verified with Verus: class, field and enum
definitions and their registries, class instances laid out at an address, the edits made from a
field's context menu, the text shown for a row, address expressions, selections and filters.

- `src/` is the library. Every function in it carries a contract that Verus proves, except
  two small wrappers around std (`String::from_utf8` and `str::to_lowercase`), whose
  contracts are taken on trust; the laws that relate several operations are public proof
  functions (`law_*`).
- `tests/` runs the library on concrete values.
- `app/` is a small command-line front end: it loads a saved structure (JSON), lays it out,
  optionally moves it to an address given as an expression, prints it and saves it again;
  `--demo` prints the two example structures.

Reading another process's memory needs a driver that is not part of this project, so the
functions that present memory take the bytes that were read as arguments.
