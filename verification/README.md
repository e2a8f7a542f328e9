# kepler

The discrete core of a finite element toolkit, verified with Verus: meshes and
their validation, the text formats the toolkit reads (its own mesh and
parameter files, Gmsh, Abaqus decks, project files, VTK cell sections), degree
of freedom bookkeeping, region annotations and conditions, solver options, and
the decisions of its REST server (job lifecycle, artifacts, links, command
line).

Real numbers are held as the decimal text they were written in (`Decimal`), so
that every check on the structure of a model is proved; tests that need the
value of a number (is it finite, is it positive) are answered by the caller.
Equality of such numbers, and of the points, meshes and configurations that
hold them, is equality of their texts: `1` and `1.0` are different values of
`Decimal`.

Layout:

- `src/` — the verified library. `text` and `numbers` model `str` operations
  and number literals; `mesh`, `annotation` and `condition` the model; `io`
  the file formats; `fem` the degree of freedom numbering of the elements;
  `linalg` the solver options; `server` the server's decisions.
- `tests/` — tests of the library.
- `app/` — ordinary Rust around it: files on disk, the floating-point checks
  and the Poisson solve, the JSON forms of the project and result types, and
  the axum server.
