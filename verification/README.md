# palace-prop

A library for Palace chat props: the prop blob codecs (8-, 16-, 20-, 32-bit
and S20 pixels, the big animated/PNG props), the `.prp` roster format (read,
write, edit, canonicalise, CRC audit and repair), the client's cache bundle
and its catalog, the user's bag folder (collections, shelves, favourites,
trash, outfits), and the prop editor's integer operations (paint, flood fill,
flips and turns, guides, playback, undo/redo and frame bookkeeping).

Every function in `src/` is verified with Verus against a contract over
mathematical models (sequences, maps and the spec functions beside each
type). The calls into `flate2` (zlib) and `png` stand behind small trusted
wrappers whose contracts name what those crates compute.

Layout:

- `src/` — the verified library.
- `tests/` — the library's tests.
- `app/` — the command-line tool and the parts that need the file system,
  the environment or floating point: reading and writing files, discovering
  the bag folder, resizing and compositing images.
