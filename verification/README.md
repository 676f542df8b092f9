# gitobj

Git object plumbing with verified encodings: object ids, the index file
(`DIRC`) format, blob/tree/commit objects, loose object encoding, refs and
ref transactions.

- `src/` is the library, checked by Verus. Each format is specified as a
  function on byte sequences (`parse_index`, `index_bytes`, `parse_ref`,
  `commit_content`, `tree_loop`, ...), and the readers and writers are proved
  to compute exactly those. Round trips (index, refs, hexadecimal ids) are
  stated and proved as lemmas.
- SHA-1 (`sha1`), zlib (`flate2`), hexadecimal (`hex`), decimal (`itoa`),
  byte search (`bstr`) and the clock (`jiff`) are called through small
  wrappers whose contracts state what those crates document.
- `app/` holds the file-system side: temporary files, lock files, persisting
  loose objects, reading the index file, and `main`.
