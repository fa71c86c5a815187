# rustcraft

The game rules of a voxel sandbox, written in Verus and proved against their
contracts.

- `src/` is the verified library:
  - `block`, `item`: compact block and item IDs, their registries, stacks and tools;
  - `coordinates`, `chunk`: world, chunk and local coordinates, dense chunk
    storage and the loaded-chunk store with its dirty marking;
  - `inventory`, `crafting`: slots, hotbar, mouse stack moves, pickup and recipes;
  - `generation`: hashing, terrain layering, trees, biomes' blocks, the
    generation lifecycle queue and chunk streaming;
  - `meshing`: light propagation and sampling, face visibility, greedy face
    merging, the padded texture atlas, and the meshing scheduler (stale
    results, upload and start budgets, mesh revisions);
  - `interaction`: breaking and placing blocks;
  - `game`: game states, the pause flow, the spawn-area check and the title
    menu as a state machine;
  - `persistence`, `text`: slot names, save-file framing, the text save
    format, chunk archive validation and save scheduling.
- `tests/` runs the library on concrete cases.
- `app/` is a headless host built on the engine's minimal plugins: file I/O,
  serialization, the floating-point terrain noise, and the frame loop that
  drives streaming, meshing and saving, plus the
  floating-point parts that a renderer needs (vertex buffers of chunk meshes and
  the voxel ray cast), built on the library's checks.
