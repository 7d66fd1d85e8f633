use gpui_platform::{
    needs_own_texture, texture_descriptor, texture_size, AllocationStep, AtlasKey, AtlasState,
    MAX_TEXTURE_GRANTS,
    AtlasTextureId, AtlasTextureKind, AtlasTile, Bounds, DevicePixels, PixelFormat, Point, Size,
    UploadRegion,
};

fn size(w: i32, h: i32) -> Size {
    Size { width: DevicePixels(w), height: DevicePixels(h) }
}

fn make_image_key(image_id: u64) -> AtlasKey {
    AtlasKey { id: image_id, kind: AtlasTextureKind::Polychrome, is_image: true }
}

/// Caches a tile for `key` the way the platform atlas does: the cached tile if there is one,
/// else room in an existing texture, else a new texture.
fn insert_tile(atlas: &mut AtlasState, key: &AtlasKey, size: Size) -> AtlasTile {
    if let Some(tile) = atlas.get_tile(key) {
        return tile;
    }
    let mipmapped = needs_own_texture(key, size);
    match atlas.allocate(key, size, mipmapped) {
        AllocationStep::Allocated(tile) => tile,
        AllocationStep::NeedsTexture(_) => {
            let (_, tile) = atlas.allocate_in_new_texture(key, size, mipmapped);
            tile.expect("allocation should succeed")
        }
    }
}

#[test]
fn test_remove_deallocates_tile_space_for_reuse() {
    let mut atlas = AtlasState::new();

    let small = Size { width: DevicePixels(64), height: DevicePixels(64) };
    let big = Size { width: DevicePixels(700), height: DevicePixels(700) };

    let keeper_key = make_image_key(1);
    let big_key_a = make_image_key(2);
    let big_key_b = make_image_key(3);

    let keeper_tile = insert_tile(&mut atlas, &keeper_key, small);
    let tile_a = insert_tile(&mut atlas, &big_key_a, big);
    assert_eq!(keeper_tile.texture_id, tile_a.texture_id);

    atlas.remove(&big_key_a);

    let tile_b = insert_tile(&mut atlas, &big_key_b, big);
    assert_eq!(tile_b.texture_id, keeper_tile.texture_id);
}

#[test]
fn a_cached_tile_is_returned_until_removed() {
    let mut atlas = AtlasState::new();
    let key = make_image_key(7);
    assert_eq!(atlas.get_tile(&key), None);
    let tile = insert_tile(&mut atlas, &key, size(32, 16));
    assert_eq!(atlas.get_tile(&key), Some(tile));
    assert_eq!(insert_tile(&mut atlas, &key, size(32, 16)), tile);
    assert_eq!(tile.bounds.size, size(32, 16));
    assert_eq!(tile.padding, 0);
    assert_eq!(tile.texture_id, AtlasTextureId { index: 0, kind: AtlasTextureKind::Polychrome });
    // The last tile of the texture leaves: the texture is released.
    assert_eq!(atlas.remove(&key), Some(tile.texture_id));
    assert_eq!(atlas.get_tile(&key), None);
    // Removing a key that is not cached changes nothing.
    assert_eq!(atlas.remove(&key), None);
}

#[test]
fn a_freed_texture_slot_is_reused() {
    let mut atlas = AtlasState::new();
    let a = make_image_key(1);
    let b = make_image_key(2);
    let c = make_image_key(3);
    let tile_a = insert_tile(&mut atlas, &a, size(1200, 1100));
    let tile_b = insert_tile(&mut atlas, &b, size(1300, 1024));
    // Large images get textures of their own.
    assert_eq!(tile_a.texture_id.index, 0);
    assert_eq!(tile_b.texture_id.index, 1);
    assert_eq!(atlas.texture(tile_a.texture_id).size(), size(1200, 1100));
    assert!(atlas.texture(tile_a.texture_id).mipmapped());
    assert_eq!(atlas.remove(&a), Some(tile_a.texture_id));
    let tile_c = insert_tile(&mut atlas, &c, size(2000, 1500));
    assert_eq!(tile_c.texture_id.index, 0);
    assert_eq!(atlas.texture(tile_c.texture_id).size(), size(2000, 1500));
}

#[test]
fn a_texture_with_tiles_left_is_kept() {
    let mut atlas = AtlasState::new();
    let a = AtlasKey { id: 1, kind: AtlasTextureKind::Monochrome, is_image: false };
    let b = AtlasKey { id: 2, kind: AtlasTextureKind::Monochrome, is_image: false };
    let tile_a = insert_tile(&mut atlas, &a, size(10, 12));
    let tile_b = insert_tile(&mut atlas, &b, size(10, 12));
    assert_eq!(tile_a.texture_id, tile_b.texture_id);
    assert_ne!(tile_a.tile_id, tile_b.tile_id);
    // The first tile of a fresh texture sits on its top shelf, at the start of the shelf's last
    // bucket; the second goes right beside it.
    assert_eq!(tile_a.bounds.origin, Point { x: DevicePixels(768), y: DevicePixels(0) });
    assert_eq!(tile_b.bounds.origin, Point { x: DevicePixels(778), y: DevicePixels(0) });
    assert_eq!(atlas.remove(&a), None);
    assert_eq!(atlas.remove(&b), Some(tile_b.texture_id));
}

#[test]
fn a_mipmapped_texture_takes_no_other_tile() {
    let mut atlas = AtlasState::new();
    let big = make_image_key(1);
    let small = make_image_key(2);
    let big_tile = insert_tile(&mut atlas, &big, size(1024, 1024));
    let small_tile = insert_tile(&mut atlas, &small, size(8, 8));
    assert_ne!(big_tile.texture_id, small_tile.texture_id);
    assert!(!atlas.texture(small_tile.texture_id).mipmapped());
    assert_eq!(atlas.texture(small_tile.texture_id).size(), size(1024, 1024));
}

#[test]
fn only_large_images_get_a_texture_of_their_own() {
    let image = make_image_key(1);
    let glyph = AtlasKey { id: 2, kind: AtlasTextureKind::Monochrome, is_image: false };
    assert!(needs_own_texture(&image, size(1024, 10)));
    assert!(needs_own_texture(&image, size(3, 2048)));
    assert!(!needs_own_texture(&image, size(1023, 1023)));
    assert!(!needs_own_texture(&glyph, size(4096, 4096)));
}

#[test]
fn texture_sizes_follow_the_atlas_limits() {
    assert_eq!(texture_size(size(64, 64), false), size(1024, 1024));
    assert_eq!(texture_size(size(2000, 64), false), size(2000, 1024));
    assert_eq!(texture_size(size(20000, 30000), false), size(16384, 16384));
    assert_eq!(texture_size(size(2000, 1500), true), size(2000, 1500));
    assert_eq!(texture_size(size(20000, 1500), true), size(16384, 1500));
}

#[test]
fn texture_descriptors_name_format_and_mips() {
    let shared = texture_descriptor(size(10, 10), AtlasTextureKind::Monochrome, false);
    assert_eq!(shared.format, PixelFormat::R8Unorm);
    assert_eq!(shared.bytes_per_pixel, 1);
    assert_eq!(shared.mip_levels, 1);
    assert!(!shared.render_target && !shared.generate_mips);
    let own = texture_descriptor(size(1500, 1200), AtlasTextureKind::Polychrome, true);
    assert_eq!(own.format, PixelFormat::B8G8R8A8Unorm);
    assert_eq!(own.bytes_per_pixel, 4);
    assert_eq!(own.mip_levels, 0);
    assert!(own.render_target && own.generate_mips);
    assert_eq!(own.size, size(1500, 1200));
    let subpixel = texture_descriptor(size(10, 10), AtlasTextureKind::Subpixel, false);
    assert_eq!(subpixel.format, PixelFormat::R8G8B8A8Unorm);
}

#[test]
fn an_upload_needs_bytes_for_the_whole_tile() {
    let mut atlas = AtlasState::new();
    let key = make_image_key(1);
    let tile = insert_tile(&mut atlas, &key, size(3, 2));
    let texture = atlas.texture(tile.texture_id);
    assert_eq!(texture.bytes_per_pixel(), 4);
    assert_eq!(texture.upload_region(tile.bounds, 23), None);
    let origin = tile.bounds.origin;
    assert_eq!(
        texture.upload_region(tile.bounds, 24),
        Some(UploadRegion {
            left: origin.x.0 as u32,
            top: origin.y.0 as u32,
            right: origin.x.0 as u32 + 3,
            bottom: origin.y.0 as u32 + 2,
            row_pitch: 12,
        })
    );
    let bounds = Bounds {
        origin: Point { x: DevicePixels(5), y: DevicePixels(7) },
        size: size(10, 4),
    };
    assert_eq!(
        texture.upload_region(bounds, 1000),
        Some(UploadRegion { left: 5, top: 7, right: 15, bottom: 11, row_pitch: 40 })
    );
}

#[test]
fn a_lost_device_forgets_every_tile() {
    let mut atlas = AtlasState::new();
    let key = make_image_key(1);
    insert_tile(&mut atlas, &key, size(16, 16));
    atlas.handle_device_lost();
    assert_eq!(atlas.get_tile(&key), None);
    let tile = insert_tile(&mut atlas, &key, size(16, 16));
    assert_eq!(tile.texture_id.index, 0);
}

#[test]
fn an_oversized_tile_is_refused_by_its_new_texture() {
    let mut atlas = AtlasState::new();
    let key = make_image_key(1);
    match atlas.allocate(&key, size(20000, 10), false) {
        AllocationStep::NeedsTexture(desc) => assert_eq!(desc.size, size(16384, 1024)),
        AllocationStep::Allocated(_) => panic!("no texture exists yet"),
    }
    let (id, tile) = atlas.allocate_in_new_texture(&key, size(20000, 10), false);
    assert_eq!(id.index, 0);
    assert_eq!(tile, None);
    assert_eq!(atlas.get_tile(&key), None);
}

#[test]
fn a_texture_stops_after_its_last_grant() {
    let mut atlas = AtlasState::new();
    let keeper = make_image_key(1);
    let keeper_tile = insert_tile(&mut atlas, &keeper, size(8, 8));
    // The keeper took one grant; cycle a second key through the same texture until every
    // grant but none is used.
    let cycled = make_image_key(2);
    for _ in 1..MAX_TEXTURE_GRANTS {
        match atlas.allocate(&cycled, size(8, 8), false) {
            AllocationStep::Allocated(tile) => assert_eq!(tile.texture_id, keeper_tile.texture_id),
            AllocationStep::NeedsTexture(_) => panic!("the texture still has grants"),
        }
        assert_eq!(atlas.remove(&cycled), None);
    }
    // The texture has room but no grant left: the next tile asks for a new texture.
    let late = make_image_key(3);
    assert!(matches!(atlas.allocate(&late, size(8, 8), false), AllocationStep::NeedsTexture(_)));
    let (id, tile) = atlas.allocate_in_new_texture(&late, size(8, 8), false);
    assert_eq!(id, AtlasTextureId { index: 1, kind: AtlasTextureKind::Polychrome });
    assert_eq!(tile.map(|t| t.texture_id), Some(id));
}
