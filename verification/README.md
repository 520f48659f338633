# truss-fem

A finite element analyzer for 2D/3D pin-jointed trusses (direct stiffness
method), with an interactive shell, text and JSON reports, and a
self-contained web viewer.

The crate is in two parts.

- `src/` is a library verified with Verus. It holds the input format (a
  parser with an exact specification, a writer, and the laws that tie them
  together), the report layouts, the HTML page, the decisions of the
  interactive shell, and the integer side of the analysis (which degrees of
  freedom are free, how many nodes are supports). Real values (coordinates,
  loads, `E`, `A`) are carried as the text of floating-point literals, whose
  syntax the parser checks.
- `app/` is the command-line program around it: argument handling, files,
  the local web server, the browser launcher, and the floating-point work
  (geometry checks, the stiffness matrix, the linear solver, number
  formatting).

Modules of the library:

| module       | contents                                                          |
|--------------|-------------------------------------------------------------------|
| `text`       | character classes, trimming, comments, tokens, lines              |
| `numbers`    | integer and floating-point literal syntax, decimal text           |
| `model`      | the model, the parser, the sanity checks, the input-format writer |
| `input_laws` | what the parser accepts is well formed; written models read back  |
| `line_laws`  | comments, blank lines and separators do not change the model      |
| `solver`     | free degrees of freedom, supports, member states, solve errors    |
| `report`     | the text and JSON reports, JSON string literals and reading them  |
| `viewer`     | the viewer page and its HTTP header                               |
| `shell`      | command words, arguments, report formats, ports                   |
| `session`    | the steps each shell command line takes, and their outcomes       |
| `paths`      | file extensions, sample files, verbatim-path prefixes             |
