# starbreaker_ui

Static tooling for BuildingBlocks UI canvases, written in Verus: the
decisions are executable Rust whose behaviour is stated in `requires` /
`ensures` contracts and proved.

## Layout

- `src/` — the verified library.
  - `json` — a plain JSON model (members in order, numbers by kind).
  - `strs`, `table` — character-sequence helpers and a small string-keyed map.
  - `canvas` — canvas record parsing and the sub-canvas tree resolver.
  - `bb_state_filter` — the static visibility filter of state-switching
    canvases (boolean bindings, idle defaults, component parameters).
  - `bb_scene` — node types, pointer strings, the node graph of a canvas
    (ids, list templates, parents, children, roots) and the cloning of the
    operations bound to widget clones.
  - `pipeline` — record names, SWF source candidates and selection, the SWF
    import walk, style source selection and asset reference manifests.
  - `defaults` — the registry of default binding values and localization.
  - `compose` — brand slugs, text-style colour decisions, custom-shape matte
    clearing and cropping to visible bounds.
  - `postprocess` — which post-process passes run.
- `app/` — what surrounds the library: `serde_json` conversion, the canvas
  types with serde derives, the error type with `std::error::Error`, the
  fetch loops, and the float arithmetic of the renderer-side decisions.
- `tests/` — tests of the library on concrete values.

The outside crates the library calls (`swf`, `image`) and the few `std`
functions without a specification in vstd (`String::push`,
`str::to_lowercase`) are reached through trusted wrappers; each one's doc
comment says what its contract claims.
