# pdf_slim

A PDF compression tool whose decision logic is verified with Verus.

- `src/` is the verified library: compression presets and overrides, the
  human-readable size format (an exact integer model of the `f64`
  arithmetic it is defined by), output/backup/temporary paths (including
  `--output`), digital signature detection (following referenced forms),
  the selection, decoding, downscaling and replacement of images (PNG-style
  images kept where the preset says so, grayscale ones always), stream
  compression, the info-mode listing, and the per-file results and batch
  summary of a run. What the library reads of a PDF and of an image is
  modelled as plain values named after the `lopdf` and `image` calls that
  produce them.
- `app/` is the command-line program around it: argument parsing,
  loading and saving files, backups and renames, JSON output, and the
  floating-point figures of the report (reduction percentages, elapsed
  time).
- `tests/` exercises the library on concrete values and on documents
  built in memory.
