# musikr

Reading and writing ID3v2 tags, the metadata format of MP3 files, with the parsing,
rendering and conversion logic proved correct by Verus.

Every function of the library states what it returns in `requires` / `ensures` over
mathematical models (byte and character sequences, and the entries of a frame map), and
Verus checks each body against that contract. Verified functions do not panic.

## Layout

- `src/` — the verified library.
  - `io.rs` — `BufStream`, a cursor over a byte slice, and big- and little-endian numbers.
  - `raw.rs`, `err.rs` — raw big-endian numbers and bits, and the errors of the header
    readers.
  - `string.rs` — the text encodings of tags (Latin-1, UTF-16 with and without a byte order
    mark, UTF-8): decoding, encoding and nul-terminated strings.
  - `id3v2.rs` — `Tag`: parsing a tag from its header and body, and rendering it with
    padding.
  - `id3v2/tag.rs`, `id3v2/header.rs` — tag headers, extended headers, restrictions and
    frame headers.
  - `id3v2/syncdata.rs` — syncsafe integers and unsynchronization.
  - `id3v2/frames.rs` and `id3v2/frames/` — frame IDs, the frame header of each version,
    decompression, and every frame kind: text, URL, comments and lyrics, pictures and
    objects, play counts and ratings, event timing, ownership, volume and equalization.
  - `id3v2/collections.rs` — `FrameMap`, frames kept sorted by key, and the order in which
    they are written.
  - `id3v2/compat.rs` — converting frames between ID3v2.3 and ID3v2.4.
- `tests/` — tests of the library on concrete tags and frames.
- `app/` — file access around the library: opening a tag from a file and saving a tag into
  one. It is ordinary Rust and is not verified.

The outside crates are `miniz_oxide`, for the zlib inflation of compressed frames, and
`log`, used by `app/`. The one call into `miniz_oxide` stands behind a trusted wrapper
whose contract names its result; the few calls into `std` that vstd does not specify stand
behind trusted wrappers too.

## Checking

Verus verifies the crate from `src/lib.rs`; the tests run as ordinary Rust tests.
