# bevy_flipbook

Slot bookkeeping for vertex-animation-texture (VAT) playback in Bevy, with
its contracts proved by Verus.

- `src/` — the verified library:
  - `slot/allocator.rs`: slot indices, handed out fresh or reused from a free
    list (most recently freed first), with the reclamation laws.
  - `slot.rs`: one slot buffer per material (slots, allocator, dirty flag) and
    the laws on uploads and reclamation.
  - `remap_info.rs`: clip metadata, lookup by name, ordering by start frame.
  - `material.rs`: the shader settings derived from a bake's metadata.
  - `lib.rs`: `VatHandler`, the entry point the plugin uses.
  Floats are carried as `f32` bit patterns; materials are keyed by integers.
- `app/` — the Bevy plugin, material extension, JSON reading and asset loader,
  which convert between Bevy/serde types and the library's plain values.
- `tests/` — tests of the library.
