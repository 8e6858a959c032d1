# ructe

Ructe compiles HTML templates to Rust functions at build time, and packs
static files into constants with content-dependent names.

The library under `src/` is verified with Verus:

- `bytes`, `spacelike`, `expression`, `templateexpression`, `template`:
  the template grammar, as parsers on bytes whose results and error
  reports are stated exactly by specification functions;
- `parseresult`: parse errors and how they are shown, line and column;
- `rustcode`: the Rust code that each template element compiles to;
- `template`: whole templates and the function they become;
- `templates`: writing values as HTML, with special characters escaped;
- `staticfiles`: checksums, names, mime types and the `statics` module;
- `ructe`: which files are templates and how the generated module is
  put together;
- `errors`: a registry of custom error messages.

`app/` holds the build-time interface that reads directories and writes
the generated files, using the library for every decision.
