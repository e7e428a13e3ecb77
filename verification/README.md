# filefish

filefish is a file-format viewer: it recognizes the format of a file and
breaks its bytes into a tree of labeled, byte-addressed blocks (headers,
sections, fields) that a window shows beside a hex dump.

The library in `src/` is written in Verus. Every format parser is verified
against a specification of the blocks it produces, stated over the file's
bytes as a sequence.

- `src/bytes.rs`: bounds-checked integer reads in either byte order.
- `src/text.rs`, `src/decimal.rs`: decimal, hexadecimal and fixed-point
  rendering of numbers as the labels show them.
- `src/timefmt.rs`: calendar dates from day counts (with a proof that
  consecutive day counts are consecutive Gregorian dates) and durations.
- `src/dissect.rs`: the hex dump.
- `src/dissectors/`: the `Block` tree, the `Dissector` trait, format
  selection (first format whose check accepts the data, else a generic
  block spanning the file), and one module per format: BMP, ELF, FLAC, GIF,
  gzip, ICO, JPEG (with EXIF), Mach-O, MP4, Ogg, PE, PNG, SQLite, tar, WAV,
  WebP, ZIP.
- `src/outline.rs`: the block tree flattened in pre-order with depths.

Beyond each parser's exact specification, the library proves which format
is chosen for given bytes; that in every format every block's span runs
forwards and every leaf has no children; that OGG pages follow one
another; that day counts are Gregorian dates; that EXIF IFDs nest to a
bounded depth and only through their pointer tags; and, for BMP, ELF,
FLAC, GIF, gzip, OGG, PE, SQLite, tar, ZIP and (when every box header lies
within its box) MP4, that every block covers a sub-range of the block
holding it.

`app/` is the program around the library: it reads the file the user opens
and hands the C++/Qt window its size, hex dump and outline through `cxx`.

`tests/` runs the library on concrete files of each format.
