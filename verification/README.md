# Eyers

A PDF reader with vim-style keyboard navigation, dictionary lookups, translations and
annotations, whose reading logic is verified with Verus.

- `src/` is the verified library: the key processors and modes (`modes`), the text of a
  page organised into words and lines with cursor navigation and selections (`text_map`),
  annotations, dictionary definitions, translation requests, words under a click and the
  document outline (`services`), and the decisions of the window and its panels
  (`widgets`).
- `app/` is the GTK application around it: widgets and drawing, pdfium for reading and
  rendering pages, SQLite for the annotation and dictionary databases, and HTTP for the
  translation service.
- `tests/` runs the library on concrete documents and key sequences.
