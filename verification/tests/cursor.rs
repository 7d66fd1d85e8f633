use gpui_platform::{
    cursor_bitmap, cursor_png, system_cursor, CursorRegistry, CursorStyle, CustomCursorImage,
    NativeCursorRegistry, SystemCursor,
};

fn image(rgba: Vec<u8>, width: u32, height: u32) -> CustomCursorImage {
    CustomCursorImage { rgba, width, height, hot_x: 1, hot_y: 0 }
}

#[test]
fn styles_map_to_system_cursors() {
    assert_eq!(system_cursor(CursorStyle::IBeam), SystemCursor::IBeam);
    assert_eq!(system_cursor(CursorStyle::IBeamCursorForVerticalLayout), SystemCursor::IBeam);
    assert_eq!(system_cursor(CursorStyle::Crosshair), SystemCursor::Cross);
    assert_eq!(system_cursor(CursorStyle::DragLink), SystemCursor::Hand);
    assert_eq!(system_cursor(CursorStyle::ResizeColumn), SystemCursor::SizeWestEast);
    assert_eq!(system_cursor(CursorStyle::ResizeRow), SystemCursor::SizeNorthSouth);
    assert_eq!(system_cursor(CursorStyle::ResizeUpLeftDownRight), SystemCursor::SizeNorthWestSouthEast);
    assert_eq!(system_cursor(CursorStyle::ResizeUpRightDownLeft), SystemCursor::SizeNorthEastSouthWest);
    assert_eq!(system_cursor(CursorStyle::OperationNotAllowed), SystemCursor::No);
    assert_eq!(system_cursor(CursorStyle::ClosedHand), SystemCursor::Arrow);
    assert_eq!(system_cursor(CursorStyle::Arrow), SystemCursor::Arrow);
}

#[test]
fn cursor_bitmap_swaps_red_and_blue() {
    let img = image(vec![1, 2, 3, 4, 5, 6, 7, 8], 2, 1);
    let bitmap = cursor_bitmap(&img).expect("a valid image");
    assert_eq!(bitmap.bgra, vec![3, 2, 1, 4, 7, 6, 5, 8]);
    assert_eq!((bitmap.width, bitmap.height), (2, 1));
    assert_eq!((bitmap.hot_x, bitmap.hot_y), (1, 0));
    assert_eq!(bitmap.mask_stride, 2);
    assert_eq!(bitmap.mask, vec![0, 0]);
}

#[test]
fn cursor_bitmap_ignores_extra_pixels_and_pads_the_mask() {
    let img = image(vec![9; 17 * 2 * 4 + 8], 17, 2);
    let bitmap = cursor_bitmap(&img).expect("a valid image");
    assert_eq!(bitmap.bgra.len(), 17 * 2 * 4);
    assert_eq!(bitmap.mask_stride, 4);
    assert_eq!(bitmap.mask.len(), 8);
}

#[test]
fn invalid_cursor_images_are_refused() {
    assert!(cursor_bitmap(&image(vec![0; 4], 0, 1)).is_none());
    assert!(cursor_bitmap(&image(vec![0; 4], 1, 0)).is_none());
    assert!(cursor_bitmap(&image(vec![0; 7], 2, 1)).is_none());
    assert!(cursor_bitmap(&image(vec![0; 4], 0x8000_0000, 1)).is_none());
}

#[test]
fn cursor_png_is_a_png_file() {
    let png = cursor_png(&image(vec![255, 0, 0, 255, 0, 0, 0, 0], 2, 1)).expect("encodes");
    assert_eq!(&png[..8], &[0x89, b'P', b'N', b'G', 0x0D, 0x0A, 0x1A, 0x0A]);
    assert_ne!(png, vec![255, 0, 0, 255, 0, 0, 0, 0]);
    assert!(cursor_png(&image(vec![0; 7], 2, 1)).is_none());
}

#[test]
fn registered_definitions_are_found_by_id() {
    let mut registry: CursorRegistry<&'static str> = CursorRegistry::new();
    assert_eq!(registry.get(3), None);
    registry.register(3, "grab");
    registry.register(4, "zoom");
    assert_eq!(registry.get(3), Some(&"grab"));
    registry.register(3, "grabbing");
    assert_eq!(registry.get(3), Some(&"grabbing"));
    assert_eq!(registry.get(4), Some(&"zoom"));
}

#[test]
fn native_cursors_get_increasing_ids_from_one() {
    let mut registry: NativeCursorRegistry<u64> = NativeCursorRegistry::new();
    assert_eq!(registry.register(70), 1);
    assert_eq!(registry.register(80), 2);
    assert_eq!(registry.get(1), Some(&70));
    assert_eq!(registry.get(2), Some(&80));
    assert_eq!(registry.get(3), None);
}
