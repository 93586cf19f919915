# indexa

A locate alternative with incremental search: an index of file and
directory names that is searched with a regex or a literal pattern while
the query is typed.

- `src/` is the library, verified with Verus: the index of scanned trees
  (`database`), its presorted orders and searches, queries and the plain
  matcher, the renderings of file modes, the configuration's defaults and
  parsers, and the decisions of the terminal interface (key bindings, the
  selection, the query box, the table layout, the drawing commands).
- `tests/` holds the tests of the library.
- `app/` is the `ix` program around it: command-line options, the
  configuration file, reading the file system, the database file, and the
  terminal.
