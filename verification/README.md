# gpui_platform

Platform-side pieces of a GPU UI toolkit, with their behaviour proved by Verus.

- `src/atlas.rs` — the packing state of a texture atlas: three lists of textures (one per
  texel kind), each texture with a shelf packer (`etagere`), and the cache of tiles by key.
  Every operation keeps the invariant `AtlasState::wf`: a texture's live-key count is the
  number of cached tiles in it, its packer holds one item per tile (bucket by bucket) and each
  tile lies in room its packer handed out, tiles of one texture never overlap, mipmapped
  textures hold at most one tile, free slots are listed once, and every tile lies inside its
  texture. A new tile goes to the newest texture that takes it, and a new texture is asked for
  only when every shared texture of its kind refused. A texture places at most
  `MAX_TEXTURE_GRANTS` tiles over its life, which keeps the packer's 16-bit item counts from
  overflowing. The cache is a `HashMap` keyed by the key's 64-bit id.
- `src/shelf_packer.rs` — the trusted boundary to `etagere::BucketedAtlasAllocator`.
- `src/cursor.rs`, `src/registry.rs` — cursor styles, native cursor bitmaps, PNG encoding of
  cursor images (`image`), and cursor registries.
- `src/appearance.rs`, `src/words.rs`, `src/geometry.rs` — theme and DPI decisions, message
  parameter halves, device-pixel geometry.
- `app/` — device textures (Direct3D 11), Win32 and AppKit calls, process-wide registries and
  the floating-point cursor scaling, around the library.
