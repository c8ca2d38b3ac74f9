# rvm2glb

Converts AVEVA RVM plant models (PDMS/E3D) to binary glTF (GLB), one file per site or
per hierarchy level, plus a `status_file.json` index; or dumps the model structure as
JSON (`--extract-json`).

The crate is a Verus-verified library; `app/` is the command-line program around it.

## Layout

- `src/` — the verified library:
  - `rvm_parser`: the chunk-stream state machine (one event per step: a primitive to
    tessellate, a finished export root, or the end), with `reader`, `rvm_body` and
    `rvm_format` for the byte layer and `node_store` for storing containers split by role;
  - `color_store`: the material palette and its COLR overrides;
  - `node_tree`, `mesh_index`, `glb`, `structure`: the writers' index logic (pruning,
    draw ranges, welding, vertex-cache order, compaction, node links) and the GLB framing;
  - `io`, `text`, `hashing`, `model`, `geometry`, `tess`: I/O traits, text helpers, MD5,
    the data model.
- `tests/` — tests of the library.
- `app/` — the program: argument handling, file I/O, tessellation and the glTF JSON
  (floating point), driving the library's parser step by step.

Every primitive of a known kind is handed to the tessellator, RVM Line primitives
included: they are drawn as a thin "+" cross of two quads along the line
(`--line-width`). Facet polygons with more than four vertices or with holes need the
libtess2 sweep tessellator, whose crate cannot be built; such polygons get no triangles.
