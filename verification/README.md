# packobf

A resource pack minimizer for Minecraft: Java Edition, written in Rust and
verified with Verus.

- `src/` is the verified library: reading the archive, classifying files,
  removing overlays for a target version, renaming models, textures, sounds
  and overlays (most referenced files get the shortest names), PNG and Ogg
  optimization behind the outside compressors, the compression cache, the
  DEFLATE/zlib framing and the ZIP writer that stores each distinct content
  once (optionally with a first `assets\0` entry that stops extracting tools),
  and the order in which the optimizer's stages run.
- `app/` is the command-line program around it: argument handling, file I/O,
  the JSON (de)serialization of the pack's file types and the GLSL rewriter;
  it runs the stages the library lists.
- `tests/` holds the tests; the properties the library keeps are stated as
  contracts and proof functions in `src/`.
