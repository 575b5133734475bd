# pkg_parser

Verified parsers for Wallpaper Engine scene packages, written in Verus.

- `src/pkg_parser/parser.rs` — the `.pkg` archive (header, file table, data
  blob) and what extracting each file writes (`extraction_writes`: the
  output paths and contents, and where a model's JSON goes).
- `src/pkg_parser/paths.rs` — archive paths as strings, read as
  `std::path::Path` reads them on Unix (trailing separators and `.`
  components set aside): file name, stem, extension, and renaming them.
- `src/pkg_parser/tex_parser.rs` — the `.tex` texture container, its mip
  chain, and conversion of its payload to PNG or GPU-ready pixels.
- `src/pkg_parser/mdl_parser.rs` — the `.mdl` puppet model (mesh, skeleton,
  animation).
- `src/pkg_parser/video_parser.rs` — video/GIF detection and GIF frames.
- `src/pkg_parser/codecs.rs` — the LZ4, BCn, PNG/JPEG and GIF codecs the
  parsers call; their contracts are trusted, not proved.
- `src/pkg_parser/text.rs`, `wire.rs` — string decoding and little-endian
  integers.

Each parser's contract states its result as a function of the input bytes
(`spec_parse_*`); laws about the formats are the `law_*` proof functions.

`app/` holds what stays outside verification: reading the archive, writing
the files that `extraction_writes` lists below the output directory,
logging, and the serde/JSON rendering of puppet models (with the model's
floats as `f32`; the library keeps their bit patterns).
