# graphlite

A code graph of a project: its symbols, how they call and depend on each other, and what stands
around them, as XML or Markdown that is small enough to read.

- `src/` is the library. It parses sources, resolves calls, infers roles, follows edges, checks
  layer and visibility rules, searches, traces, renders, and speaks with language servers. Every
  function of it is verified with Verus: its contract says what it returns, and public proof
  functions state what holds of the library as a whole.
- `app/` is the command line around it: files, processes, sockets and the SQLite database.
- `tests/` run the library on concrete values.

The library calls tree-sitter, quick-xml, serde_json, toml and rustdoc-types. Each such call
stands behind one small function, whose comment says what is taken for granted of it.

Confidences are decimal fractions. The library works with what they are made of, or with their
rendered text, and the command line computes the fractions.
