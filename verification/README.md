# pv

Tooling for the Dutch polling-station reports ("processen-verbaal"):
cropping the vote tables out of the scanned PDFs, reading them with a local
vision model, validating the Markdown the model writes, and comparing it
with the official result CSVs.

- `src/` is the library, verified with Verus: validation of the OCR
  Markdown tables, parsing of the official CSV, the comparison and its
  statuses, the reversal of recount corrections, the report texts, the
  row geometry and pixel work of the marked-up report images, the HTTP and
  JSON texts of the model request, the command-line options and the file
  naming rules. Each public function states its result in its `ensures`;
  the `law_*` proof functions state properties that span functions.
- `app/` is the `pv` command line around it: files, processes (`pdftotext`,
  `pdfimages`, `mutool`, `curl`), the TCP connection to the model, image
  decoding and encoding, and the crop templates, which are fractions of the
  page.
- `tests/` runs the library on concrete inputs.
