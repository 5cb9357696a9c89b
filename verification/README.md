# jxl_annotate

Byte-level annotation and comparison of JPEG XL bitstreams, written in Verus.

`src/` is the verified library:

- `bitstream.rs`: the least-significant-bit-first bit reader and the annotated
  reader that records every read (position, length, context path, value).
- `context.rs`, `collector.rs`: the stack of parsing contexts and the
  collector that nests annotations into segments.
- `annotator.rs`, `inspect.rs`: the manifest of a file (size, SHA-256
  digest, image and frame information) and its basic segment layout; the
  `inspect` command and the one-line summary of a file.
- `output.rs`: where each segment is written and the mapping from dotted
  segment paths (`frame0.lf_group0.hf_metadata`) back to those files.
- `hexdump.rs`: the annotated hex dump.
- `stats.rs`: VarDCT block statistics.
- `info.rs`: the text report of the `info` command.
- `diff.rs`: comparison of the segment structure of two files.
- `debug.rs`, `text.rs`, `model.rs`: renderings and the data model.

`app/` is the command-line tool around it: argument parsing, file I/O, JSON
output, JPEG XL parsing and the floating-point parts of the reports.
