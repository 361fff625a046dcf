# cmx_sheet

A spreadsheet engine without a screen: formulas and their order of computation, the built-in
functions, workbook snapshots, and spreadsheet, CSV, HTML and PDF files. The library is verified with
Verus; its contracts say what each function returns or changes.

## Layout

- `src/` is the verified library.
  - `token`, `parse`, `evaluator`, `value`, `custom_fn`: formulas, from text to value.
  - `depgraph`, `toposort`, `engine`, `write_back`, `recalc`: which formulas read which cells, in what
    order they are computed, and how their values come into their cells.
  - `builtin`, `builtin_names`, `calling` and the modules that end in `_fn`: the built-in functions and
    how formulas call them. `kernel` names the floating-point work that a host does for them.
  - `snapshot`, `worksheet`, `style`, `outline`: workbooks as data.
  - `csv`, `xlsx*`, `archive`, `scan`, `xml`, `export_html`, `export_pdf`: files.
  - the modules that end in `_law` or `_round`, and `round_trip`: what holds of several functions
    together, such as what a file gives back of what was written to it.
- `tests/` runs the library, with a host that does the floating-point work.
- `app/` is ordinary Rust around the library: floating point, JSON, PDF documents, files on disk and a
  demonstration program.

## Numbers

The library holds a floating-point number by its bits and a number of a file by its text. Whatever has
to be computed in floating point is asked of the host.
