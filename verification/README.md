# drend

The verified core of a small polygon engine and maze game: everything it
decides with integers, characters and bytes, proved with Verus.

- `src/text.rs`: lines, trimming, words, separators and decimal integers
  over `Seq<char>`, matching `str::lines`, `str::trim`,
  `str::split_whitespace`, `str::split` and `i32::from_str`.
- `src/obj.rs`: OBJ and MTL reading: line kinds, materials (with the shared
  texture list), face corners, index resolution and fan triangulation.
- `src/maze.rs`: the maze map, cell lookup with a solid border, blocking
  rules and the use key.
- `src/game.rs`: weapons, enemy kinds, damage, door states and the
  shot-spread generator.
- `src/keys.rs`: the pressed-key state.
- `src/pixels.rs`: texture row padding, BGRA read-back order, batching
  triangles by texture.
- `src/laws.rs`: properties across calls (key events, door cycle, grid,
  triangle counts, material lookup, pixel order, batching).

`app/` holds the frontends: the native one (winit window, image decoding)
and, for the wasm target, the browser one (canvas, page-decoded assets);
both share GPU rendering (wgpu) and all floating-point work (camera,
matrices, positions, hitscan), and call the library for every rule above.
