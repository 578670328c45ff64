# cli_test

A static analyser for Python, JavaScript and TypeScript projects: it finds
functions that nothing calls and a few design antipatterns (long functions,
long parameter lists, names defined in several files, god classes).

- `src/` is the verified library. It works on the per-file analyses (a JSON
  description of each file's imports, functions, classes and calls, held in
  the library's own `json::Json`):
  - `analysis::unused` links every call to the file that defines its target
    and reports the definitions that no call reaches;
  - `analysis::antipatterns` holds the long-function, long-parameter,
    duplicate-name checks and the integer measures of each class;
  - `config` holds the settings and their defaults.
  Every public function states its result exactly over spec functions; the
  laws (`law_*` proof functions) relate the checks to what they report.
- `app/` is the command-line program and the MCP server: it walks the
  project directory, runs the per-file analyser, parses its JSON, scores god
  classes (in floating point) and prints the reports.
