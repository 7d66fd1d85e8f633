pub mod appearance;
pub mod atlas;
pub mod cursor;
pub mod geometry;
pub mod registry;
pub mod shelf_packer;
pub mod words;

pub use appearance::{
    appearance_for_foreground, effective_dpi, is_color_light, use_immersive_dark_mode,
    windows_credentials_target_name, Color, WindowAppearance, USER_DEFAULT_SCREEN_DPI,
};
pub use atlas::{
    needs_own_texture, texture_descriptor, texture_size, AllocationStep, AtlasKey, AtlasState,
    AtlasTexture, AtlasTextureId, AtlasTextureKind, AtlasTile, AtlasTileId, PixelFormat,
    TextureDescriptor, UploadRegion, MAX_TEXTURE_GRANTS,
};
pub use cursor::{
    cursor_bitmap, cursor_png, system_cursor, CursorBitmap, CursorStyle, CustomCursorImage,
    SystemCursor,
};
pub use geometry::{Bounds, DevicePixels, Point, Size};
pub use registry::{CursorRegistry, NativeCursorRegistry};
pub use words::{HiLoWord, LPARAM, WPARAM};
