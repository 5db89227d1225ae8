# hwr_hod_parser

Tools for Homeworld Remastered HOD model files, with the byte-level and
discrete logic verified in Verus.

- `src/` — the verified library:
  - `bytes`: little/big-endian encodings and the appends through `byteorder`;
  - `xpress`: the LZ77-style stream decoder (both indicator bit orders);
  - `analysis`: locating the indicator bit and item behind a decoded byte;
  - `pool`: POOL chunk layout, reading, decompression and replacement;
  - `diff`: byte comparison of streams and BMSH record extraction;
  - `mesh`, `dedup`, `compiler`, `names`, `iff`: mesh model, vertex
    deduplication, compilation to indexed parts and MULT chunks;
  - `lod`, `collision`, `hull`, `kdop`: the discrete steps of level-of-detail
    replacement, collision meshes, hull finishing and the KDOP chunk layout;
  - `mips`: DXT mip chain sizes.
  Floating-point attributes are carried as their IEEE-754 bit patterns.
- `app/` — a command-line front end and the floating-point geometry
  (decimation through meshopt, convex hulls, the 26-DOP) and texture
  encoding (image_dds, texpresso), which call into the library.
- `tests/` — tests of the library on concrete values.
