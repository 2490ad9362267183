# lilyco_binfmt

Readers for the binary and packaged document formats that office suites write, verified with
Verus: compound files and the binary workbooks in them, number formats and dates, WordprocessingML
and OpenDocument texts, OpenDocument tables with their styles and charts, formulas, a rendering of
text documents as Markdown, and the member tables of tar, ar and ZIP packages.

- `src/` is the library. Its functions have contracts. Verus proves each of them but five on the
  standard library, which it believes: those of the wrappers `entries::read_lossy`
  (`String::from_utf8_lossy`) and `lists::sort_numbers` (`<[u32]>::sort_unstable`), and those stated
  for `String::push`, `char::from_u32` and `str::to_lowercase`. XML arrives as a parsed tree
  (`xml::Node`); reports are plain structs.
- `tests/` runs the library on small inputs.
- `app/` is the program `lbin`: it reads files, calls the library and writes JSON.
