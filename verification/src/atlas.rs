use vstd::prelude::*;
use vstd::multiset::Multiset;
use std::collections::HashMap;
use etagere::BucketedAtlasAllocator;
use crate::geometry::{Bounds, DevicePixels, Point, Size, min_i32, max_i32};
use crate::shelf_packer::{
    AllocatedRect, PackerView, bucket_key, new_shelf_packer, packer_view, rect_pixels, shelf_allocate,
    shelf_deallocate,
};

verus! {

/// The smallest side, in pixels, from which an image gets a texture of its own with a full mip
/// chain instead of a place in a shared atlas.
pub const MIPMAP_MIN_DIMENSION: i32 = 1024;

/// The side of a freshly made shared atlas texture.
pub const DEFAULT_ATLAS_DIMENSION: i32 = 1024;

/// The largest side of a texture that the device accepts.
pub const MAX_ATLAS_DIMENSION: i32 = 16384;

/// The most tiles one texture places over its life. Its packer counts the items of a bucket in
/// 16 bits and, when it reuses empty shelves, hands out their bucket without looking at that
/// count; a texture that stops at this many grants keeps the count from overflowing, and the
/// next tile goes to another texture.
pub const MAX_TEXTURE_GRANTS: u32 = 65535;

/// What a texture's texels hold.
#[derive(Clone, Copy, PartialEq, Eq, Debug, Hash, Structural)]
pub enum AtlasTextureKind {
    Monochrome,
    Polychrome,
    Subpixel,
}

/// A texture: the list of its kind and its place in that list.
#[derive(Clone, Copy, PartialEq, Eq, Debug, Hash, Structural)]
pub struct AtlasTextureId {
    pub index: u32,
    pub kind: AtlasTextureKind,
}

/// The id that a texture's packer gave a tile.
#[derive(Clone, Copy, PartialEq, Eq, Debug, Hash, Structural)]
pub struct AtlasTileId(pub u32);

/// A rectangle of a texture that holds one cached item.
#[derive(Clone, Copy, PartialEq, Eq, Debug, Hash, Structural)]
pub struct AtlasTile {
    pub texture_id: AtlasTextureId,
    pub tile_id: AtlasTileId,
    pub padding: u32,
    pub bounds: Bounds,
}

/// What a cached item is known by: a unique number, the kind of texture it goes to, and whether
/// it is a raster image (only images get textures of their own).
#[derive(Clone, Copy, PartialEq, Eq, Debug, Hash, Structural)]
pub struct AtlasKey {
    pub id: u64,
    pub kind: AtlasTextureKind,
    pub is_image: bool,
}

impl AtlasKey {
    pub fn texture_kind(&self) -> (r: AtlasTextureKind)
        ensures
            r == self.kind,
    {
        self.kind
    }
}

/// The pixel format of a texture of each kind.
#[derive(Clone, Copy, PartialEq, Eq, Debug, Hash, Structural)]
pub enum PixelFormat {
    /// One 8-bit channel.
    R8Unorm,
    /// Blue, green, red and alpha, 8 bits each.
    B8G8R8A8Unorm,
    /// Red, green, blue and alpha, 8 bits each.
    R8G8B8A8Unorm,
}

pub open spec fn spec_bytes_per_pixel(kind: AtlasTextureKind) -> u32 {
    match kind {
        AtlasTextureKind::Monochrome => 1,
        AtlasTextureKind::Polychrome => 4,
        AtlasTextureKind::Subpixel => 4,
    }
}

pub open spec fn spec_pixel_format(kind: AtlasTextureKind) -> PixelFormat {
    match kind {
        AtlasTextureKind::Monochrome => PixelFormat::R8Unorm,
        AtlasTextureKind::Polychrome => PixelFormat::B8G8R8A8Unorm,
        AtlasTextureKind::Subpixel => PixelFormat::R8G8B8A8Unorm,
    }
}

/// The size of the texture made for an item of `min_size`: a texture of its own is the item's
/// size, capped at the device limit; a shared atlas is at least the default size.
pub open spec fn spec_texture_size(min_size: Size, mipmapped: bool) -> Size {
    let w = min_i32(min_size.width.0, MAX_ATLAS_DIMENSION);
    let h = min_i32(min_size.height.0, MAX_ATLAS_DIMENSION);
    if mipmapped {
        Size { width: DevicePixels(w), height: DevicePixels(h) }
    } else {
        Size {
            width: DevicePixels(max_i32(w, DEFAULT_ATLAS_DIMENSION)),
            height: DevicePixels(max_i32(h, DEFAULT_ATLAS_DIMENSION)),
        }
    }
}

/// One texture of the atlas, as far as packing goes: the device texture itself is kept by the
/// caller under the same id.
pub struct AtlasTexture {
    id: AtlasTextureId,
    bytes_per_pixel: u32,
    size: Size,
    live_atlas_keys: u32,
    mipmapped: bool,
    grants: u32,
    allocator: BucketedAtlasAllocator,
}

/// What can be known of a texture: its id, the bytes of one texel, its size, how many cached
/// tiles it holds, whether it is a mipmapped texture of its own (which holds one image and no
/// other tile), how many tiles it has placed since it was made, and its packer.
pub struct TextureView {
    pub id: AtlasTextureId,
    pub bytes_per_pixel: u32,
    pub size: Size,
    pub live_atlas_keys: u32,
    pub mipmapped: bool,
    pub grants: u32,
    pub packer: PackerView,
}

impl View for AtlasTexture {
    type V = TextureView;

    closed spec fn view(&self) -> TextureView {
        TextureView {
            id: self.id,
            bytes_per_pixel: self.bytes_per_pixel,
            size: self.size,
            live_atlas_keys: self.live_atlas_keys,
            mipmapped: self.mipmapped,
            grants: self.grants,
            packer: packer_view(self.allocator),
        }
    }
}

/// The pixels of a rectangle of the device.
pub open spec fn bounds_pixels(b: Bounds) -> Set<(int, int)> {
    rect_pixels(
        b.origin.x.0 as int,
        b.origin.y.0 as int,
        b.origin.x.0 + b.size.width.0,
        b.origin.y.0 + b.size.height.0,
    )
}

impl TextureView {
    /// The packer's bookkeeping agrees with the texture's own.
    pub open spec fn packer_wf(&self) -> bool {
        &&& self.live_atlas_keys == self.packer.live_keys.len()
        &&& self.packer.extent == (self.size.width.0 as int, self.size.height.0 as int)
        &&& 0 < self.size.width.0 <= MAX_ATLAS_DIMENSION
        &&& 0 < self.size.height.0 <= MAX_ATLAS_DIMENSION
        &&& self.grants <= MAX_TEXTURE_GRANTS
        &&& self.packer.max_item_count <= self.grants
    }

    /// `next` is this texture after its packer placed `tile`: the tile starts at the corner of
    /// the rectangle that the packer granted (as `PackerView::grants` describes it), lies inside
    /// the texture, and the texture counts one more tile.
    pub open spec fn grew(&self, next: TextureView, tile: AtlasTile) -> bool {
        &&& tile.texture_id == self.id
        &&& tile.padding == 0
        &&& tile_inside(tile.bounds, self.size)
        &&& next.id == self.id
        &&& next.bytes_per_pixel == self.bytes_per_pixel
        &&& next.size == self.size
        &&& next.mipmapped == self.mipmapped
        &&& next.live_atlas_keys == self.live_atlas_keys + 1
        &&& next.grants == self.grants + 1
        &&& exists|rect: AllocatedRect|
            #[trigger] self.packer.grants(
                next.packer,
                tile.bounds.size.width.0 as int,
                tile.bounds.size.height.0 as int,
                rect,
            ) && rect.id == tile.tile_id.0 && rect.min_x == tile.bounds.origin.x.0 && rect.min_y
                == tile.bounds.origin.y.0
    }

    /// `next` is this texture after its packer took back the tile with packer id `tile_id`.
    pub open spec fn shrank(&self, next: TextureView, tile_id: u32) -> bool {
        &&& next.id == self.id
        &&& next.bytes_per_pixel == self.bytes_per_pixel
        &&& next.size == self.size
        &&& next.mipmapped == self.mipmapped
        &&& next.live_atlas_keys == self.live_atlas_keys - 1
        &&& next.grants == self.grants
        &&& self.packer.takes_back(next.packer, bucket_key(tile_id))
    }

    /// The texture places a tile of `size`: it has not used up its grants and its packer does
    /// not refuse the tile.
    pub open spec fn accepts(&self, size: Size) -> bool {
        &&& self.grants < MAX_TEXTURE_GRANTS
        &&& !(self.packer.refuses)(size.width.0, size.height.0)
    }

    /// The texture takes shared tiles, has grants left and its packer can open a shelf for a
    /// tile of `size`.
    pub open spec fn has_open_room(&self, size: Size) -> bool {
        &&& !self.mipmapped
        &&& self.grants < MAX_TEXTURE_GRANTS
        &&& self.packer.can_open_shelf(size.width.0 as int, size.height.0 as int)
    }

    /// A texture of `size` made for `id`, whose packer holds nothing, has no shelf and no
    /// bucket record, and has all its height free.
    pub open spec fn is_fresh(&self, id: AtlasTextureId, size: Size, mipmapped: bool) -> bool {
        &&& self.id == id
        &&& self.bytes_per_pixel == spec_bytes_per_pixel(id.kind)
        &&& self.size == size
        &&& self.live_atlas_keys == 0
        &&& self.mipmapped == mipmapped
        &&& self.grants == 0
        &&& self.packer.max_item_count == 0
        &&& self.packer.live_keys == Multiset::<u32>::empty()
        &&& forall|k: u32| #[trigger] (self.packer.used)(k) == Set::<(int, int)>::empty()
        &&& self.packer.extent == (size.width.0 as int, size.height.0 as int)
        &&& self.packer.free_height == size.height.0
        &&& self.packer.shelf_count == 0
        &&& self.packer.bucket_count == 0
        &&& self.packer.top_height == 0
        &&& self.packer.top_keys == Multiset::<u32>::empty()
    }
}

impl AtlasTexture {
    pub fn id(&self) -> (r: AtlasTextureId)
        ensures
            r == self@.id,
    {
        self.id
    }

    pub fn bytes_per_pixel(&self) -> (r: u32)
        ensures
            r == self@.bytes_per_pixel,
    {
        self.bytes_per_pixel
    }

    pub fn size(&self) -> (r: Size)
        ensures
            r == self@.size,
    {
        self.size
    }

    pub fn mipmapped(&self) -> (r: bool)
        ensures
            r == self@.mipmapped,
    {
        self.mipmapped
    }

    /// Where an upload of `byte_len` bytes for a tile of `bounds` goes in this texture, and the
    /// bytes of one source row; `None` when the bytes do not cover the tile, so that the device
    /// would read past their end. Coordinates go to the device as 32-bit unsigned numbers.
    pub fn upload_region(&self, bounds: Bounds, byte_len: usize) -> (r: Option<UploadRegion>)
        requires
            self@.bytes_per_pixel <= 4,
            (bounds.size.width.0 as u32) * self@.bytes_per_pixel <= u32::MAX,
            i32::MIN <= bounds.origin.x.0 + bounds.size.width.0 <= i32::MAX,
            i32::MIN <= bounds.origin.y.0 + bounds.size.height.0 <= i32::MAX,
            (bounds.size.width.0 as u32) * self@.bytes_per_pixel * max_i32(bounds.size.height.0, 0)
                <= usize::MAX,
        ensures
            ({
                let row = (bounds.size.width.0 as u32) * self@.bytes_per_pixel;
                let rows = max_i32(bounds.size.height.0, 0);
                &&& byte_len < row * rows ==> r is None
                &&& byte_len >= row * rows ==> r == Some(
                    UploadRegion {
                        left: bounds.origin.x.0 as u32,
                        top: bounds.origin.y.0 as u32,
                        right: (bounds.origin.x.0 + bounds.size.width.0) as u32,
                        bottom: (bounds.origin.y.0 + bounds.size.height.0) as u32,
                        row_pitch: row as u32,
                    },
                )
            }),
    {
        let row_bytes = bounds.size.width.to_bytes(self.bytes_per_pixel as u8);
        let rows = if bounds.size.height.0 > 0 { bounds.size.height.0 } else { 0 };
        let expected = row_bytes as usize * rows as usize;
        if byte_len < expected {
            return None;
        }
        Some(UploadRegion {
            left: #[verifier::truncate] (bounds.left().0 as u32),
            top: #[verifier::truncate] (bounds.top().0 as u32),
            right: #[verifier::truncate] (bounds.right().0 as u32),
            bottom: #[verifier::truncate] (bounds.bottom().0 as u32),
            row_pitch: row_bytes,
        })
    }

    fn decrement_ref_count(&mut self)
        requires
            old(self).live_atlas_keys > 0,
        ensures
            final(self).live_atlas_keys == old(self).live_atlas_keys - 1,
            final(self).id == old(self).id,
            final(self).bytes_per_pixel == old(self).bytes_per_pixel,
            final(self).size == old(self).size,
            final(self).mipmapped == old(self).mipmapped,
            final(self).grants == old(self).grants,
            final(self).allocator == old(self).allocator,
    {
        self.live_atlas_keys = self.live_atlas_keys - 1;
    }

    fn is_unreferenced(&self) -> (r: bool)
        ensures
            r == (self.live_atlas_keys == 0),
    {
        self.live_atlas_keys == 0
    }

    /// Places a tile of `size` in this texture, if it has grants left and the packer finds room
    /// for the tile.
    fn allocate(&mut self, size: Size) -> (r: Option<AtlasTile>)
        requires
            old(self)@.packer_wf(),
        ensures
            final(self)@.packer_wf(),
            r is Some <==> old(self)@.accepts(size),
            r is None ==> final(self)@ == old(self)@,
            r matches Some(tile) ==> tile.bounds.size == size && old(self)@.grew(final(self)@, tile),
            old(self)@.grants < MAX_TEXTURE_GRANTS && old(self)@.packer.can_open_shelf(
                size.width.0 as int,
                size.height.0 as int,
            ) ==> r is Some,
            !tile_fits(size, old(self)@.size) ==> r is None,
    {
        if self.grants >= MAX_TEXTURE_GRANTS {
            return None;
        }
        let ghost extent = packer_view(self.allocator).extent;
        assert(extent.0 * extent.1 <= 16384 * 16384) by (nonlinear_arith)
            requires
                0 < extent.0 <= 16384,
                0 < extent.1 <= 16384,
        ;
        let allocation = shelf_allocate(&mut self.allocator, size.width.0, size.height.0);
        match allocation {
            None => None,
            Some(rect) => {
                let tile = tile_for_allocation(self.id, &rect, size);
                self.live_atlas_keys = self.live_atlas_keys + 1;
                self.grants = self.grants + 1;
                assert(old(self)@.packer.grants(
                    self@.packer,
                    tile.bounds.size.width.0 as int,
                    tile.bounds.size.height.0 as int,
                    rect,
                ));
                Some(tile)
            },
        }
    }
}

/// The part of a texture that an upload overwrites, and the bytes of one source row.
#[derive(Clone, Copy, PartialEq, Eq, Debug, Structural)]
pub struct UploadRegion {
    pub left: u32,
    pub top: u32,
    pub right: u32,
    pub bottom: u32,
    pub row_pitch: u32,
}

/// A slot of a texture list, seen through the textures' views.
pub open spec fn slot_view(slot: Option<AtlasTexture>) -> Option<TextureView> {
    match slot {
        Some(t) => Some(t@),
        None => None,
    }
}

/// The textures of one kind: slot `i` holds the texture with index `i`, or nothing once that
/// texture was released; the free list holds the empty slots, the next one to reuse last.
pub struct AtlasTextureList {
    textures: Vec<Option<AtlasTexture>>,
    free_list: Vec<usize>,
}

pub struct TextureListView {
    pub slots: Seq<Option<TextureView>>,
    pub free_list: Seq<usize>,
}

impl View for AtlasTextureList {
    type V = TextureListView;

    closed spec fn view(&self) -> TextureListView {
        TextureListView {
            slots: self.textures@.map_values(|slot: Option<AtlasTexture>| slot_view(slot)),
            free_list: self.free_list@,
        }
    }
}

impl TextureListView {
    /// Each texture sits in the slot of its index and its packer agrees with it.
    pub open spec fn slots_wf(&self) -> bool {
        forall|i: int|
            0 <= i < self.slots.len() && #[trigger] self.slots[i] is Some ==> {
                let t = self.slots[i]->0;
                &&& t.id.index == i
                &&& t.packer_wf()
            }
    }

    /// The free list names each empty slot once and nothing else.
    pub open spec fn free_wf(&self) -> bool {
        &&& self.free_list.no_duplicates()
        &&& forall|j: int|
            0 <= j < self.free_list.len() ==> {
                &&& (#[trigger] self.free_list[j] as int) < self.slots.len()
                &&& self.slots[self.free_list[j] as int] is None
            }
        &&& forall|i: int|
            0 <= i < self.slots.len() && #[trigger] self.slots[i] is None
                ==> self.free_list.contains(i as usize)
    }

    /// The slot a new texture goes to: the last freed one, or a new one at the end.
    pub open spec fn next_index(&self) -> int {
        if self.free_list.len() > 0 {
            self.free_list.last() as int
        } else {
            self.slots.len() as int
        }
    }

    /// The list once `t` is placed in the slot `next_index`.
    pub open spec fn with_texture_pushed(&self, t: TextureView) -> TextureListView {
        if self.free_list.len() > 0 {
            TextureListView {
                slots: self.slots.update(self.next_index(), Some(t)),
                free_list: self.free_list.drop_last(),
            }
        } else {
            TextureListView { slots: self.slots.push(Some(t)), free_list: self.free_list }
        }
    }

    /// `next` is this list once the texture in slot `j` placed `tile`; nothing else changes.
    pub open spec fn grew_at(&self, next: TextureListView, j: int, tile: AtlasTile) -> bool {
        &&& 0 <= j < self.slots.len()
        &&& next.slots.len() == self.slots.len()
        &&& self.slots[j] is Some
        &&& next.slots[j] is Some
        &&& self.slots[j]->0.grew(next.slots[j]->0, tile)
        &&& forall|i: int| 0 <= i < self.slots.len() && i != j ==> #[trigger] next.slots[i] == self.slots[i]
        &&& next.free_list == self.free_list
    }

    /// `next` is this list once the texture in slot `j` gave back the tile with packer id
    /// `tile_id`: a texture left without tiles is released and its slot goes to the free list.
    pub open spec fn released_at(&self, next: TextureListView, j: int, tile_id: u32) -> bool {
        let t = self.slots[j]->0;
        &&& 0 <= j < self.slots.len()
        &&& self.slots[j] is Some
        &&& next.slots.len() == self.slots.len()
        &&& forall|i: int| 0 <= i < self.slots.len() && i != j ==> #[trigger] next.slots[i] == self.slots[i]
        &&& t.live_atlas_keys == 1 ==> {
            &&& next.slots[j] is None
            &&& next.free_list == self.free_list.push(j as usize)
        }
        &&& t.live_atlas_keys != 1 ==> {
            &&& next.slots[j] is Some
            &&& t.shrank(next.slots[j]->0, tile_id)
            &&& next.free_list == self.free_list
        }
    }

    /// Some texture in slot `j` or above can open a shelf for a shared tile of `size`.
    pub open spec fn has_open_room_from(&self, size: Size, j: int) -> bool {
        exists|i: int|
            j <= i < self.slots.len() && #[trigger] self.slots[i] is Some && self.slots[i]->0.has_open_room(
                size,
            )
    }

    /// Some texture in slot `j` or above takes shared tiles and places a tile of `size`.
    pub open spec fn accepts_from(&self, size: Size, j: int) -> bool {
        exists|i: int|
            j <= i < self.slots.len() && #[trigger] self.slots[i] is Some && !self.slots[i]->0.mipmapped
                && self.slots[i]->0.accepts(size)
    }

    /// Some texture that takes shared tiles is large enough for a tile of `size`.
    pub open spec fn has_room(&self, size: Size) -> bool {
        exists|j: int|
            0 <= j < self.slots.len() && #[trigger] self.slots[j] is Some && {
                let t = self.slots[j]->0;
                &&& !t.mipmapped
                &&& tile_fits(size, t.size)
            }
    }
}

impl AtlasTextureList {
    pub fn new() -> (r: AtlasTextureList)
        ensures
            r@.slots =~= Seq::<Option<TextureView>>::empty(),
            r@.free_list =~= Seq::<usize>::empty(),
    {
        AtlasTextureList { textures: Vec::new(), free_list: Vec::new() }
    }

    /// Tries the textures from the last to the first, skipping empty slots and mipmapped
    /// textures, and places the tile in the first one whose packer finds room.
    fn allocate_existing(&mut self, size: Size) -> (r: Option<AtlasTile>)
        requires
            old(self)@.slots_wf(),
        ensures
            final(self)@.slots_wf(),
            r is None <==> !old(self)@.accepts_from(size, 0),
            r is None ==> final(self)@ == old(self)@,
            r is None ==> !old(self)@.has_open_room_from(size, 0),
            r matches Some(tile) ==> {
                let j = tile.texture_id.index as int;
                &&& old(self)@.grew_at(final(self)@, j, tile)
                &&& !old(self)@.slots[j]->0.mipmapped
                &&& old(self)@.slots[j]->0.accepts(size)
                &&& tile.bounds.size == size
                &&& !old(self)@.accepts_from(size, j + 1)
                &&& !old(self)@.has_open_room_from(size, j + 1)
            },
            old(self)@.has_open_room_from(size, 0) ==> r is Some,
            !old(self)@.has_room(size) ==> r is None,
    {
        let mut i = self.textures.len();
        while i > 0
            invariant
                i <= self.textures@.len(),
                self@ == old(self)@,
                old(self)@.slots_wf(),
                !old(self)@.accepts_from(size, i as int),
                !old(self)@.has_open_room_from(size, i as int),
            decreases i,
        {
            i = i - 1;
            let mut slot: Option<AtlasTexture> = None;
            assert(old(self)@.slots[i as int] == slot_view(self.textures@[i as int]));
            self.textures.set_and_swap(i, &mut slot);
            match slot {
                Some(mut texture) => {
                    if !texture.mipmapped {
                        let allocated = texture.allocate(size);
                        match allocated {
                            Some(tile) => {
                                self.textures.set(i, Some(texture));
                                assert(old(self)@.grew_at(self@, i as int, tile));
                                return Some(tile);
                            },
                            None => {},
                        }
                    }
                    self.textures.set(i, Some(texture));
                    assert(self@.slots =~= old(self)@.slots);
                },
                None => {
                    assert(self@.slots =~= old(self)@.slots);
                },
            }
            assert forall|x: int|
                i <= x < old(self)@.slots.len() && #[trigger] old(self)@.slots[x] is Some implies !old(
                self,
            )@.slots[x]->0.has_open_room(size) by {
                if x > i {
                    if old(self)@.slots[x]->0.has_open_room(size) {
                        assert(old(self)@.has_open_room_from(size, (i + 1) as int));
                    }
                }
            }
            assert forall|x: int|
                i <= x < old(self)@.slots.len() && #[trigger] old(self)@.slots[x] is Some implies !(!old(
                self,
            )@.slots[x]->0.mipmapped && old(self)@.slots[x]->0.accepts(size)) by {
                if x > i {
                    if !old(self)@.slots[x]->0.mipmapped && old(self)@.slots[x]->0.accepts(size) {
                        assert(old(self)@.accepts_from(size, (i + 1) as int));
                    }
                }
            }
        }
        None
    }

    /// Makes a texture of `size` for `kind` and places it in the last freed slot, or in a new
    /// slot at the end.
    fn push_texture(&mut self, kind: AtlasTextureKind, size: Size, mipmapped: bool) -> (index: usize)
        requires
            old(self)@.slots_wf(),
            old(self)@.free_wf(),
            old(self)@.slots.len() < u32::MAX,
            0 < size.width.0 <= MAX_ATLAS_DIMENSION,
            0 < size.height.0 <= MAX_ATLAS_DIMENSION,
        ensures
            index == old(self)@.next_index(),
            index < final(self)@.slots.len(),
            final(self)@.slots[index as int] is Some,
            final(self)@.slots[index as int]->0.is_fresh(
                AtlasTextureId { index: index as u32, kind },
                size,
                mipmapped,
            ),
            final(self)@ == old(self)@.with_texture_pushed(final(self)@.slots[index as int]->0),
    {
        let popped = self.free_list.pop();
        let index = match popped {
            Some(ix) => ix,
            None => self.textures.len(),
        };
        proof {
            if popped is Some {
                assert(old(self)@.free_list[old(self)@.free_list.len() - 1] == index);
            }
        }
        let texture = AtlasTexture {
            id: AtlasTextureId { index: index as u32, kind },
            bytes_per_pixel: bytes_per_pixel(kind),
            size,
            live_atlas_keys: 0,
            mipmapped,
            grants: 0,
            allocator: new_shelf_packer(size.width.0, size.height.0),
        };
        let ghost v = texture@;
        assert(v.is_fresh(AtlasTextureId { index: index as u32, kind }, size, mipmapped));
        match popped {
            Some(ix) => {
                self.textures.set(ix, Some(texture));
            },
            None => {
                self.textures.push(Some(texture));
            },
        }
        assert(self@.slots =~= old(self)@.with_texture_pushed(v).slots);
        assert(self@.free_list =~= old(self)@.with_texture_pushed(v).free_list);
        index
    }

    /// Places a tile of `size` in the texture of slot `index`, if its packer finds room.
    fn allocate_in(&mut self, index: usize, size: Size) -> (r: Option<AtlasTile>)
        requires
            old(self)@.slots_wf(),
            index < old(self)@.slots.len(),
            old(self)@.slots[index as int] is Some,
        ensures
            final(self)@.slots_wf(),
            r is None ==> final(self)@ == old(self)@,
            r matches Some(tile) ==> {
                &&& tile.bounds.size == size
                &&& tile.texture_id.index == index
                &&& old(self)@.grew_at(final(self)@, index as int, tile)
            },
            ({
                let t = old(self)@.slots[index as int]->0;
                &&& r is Some <==> t.accepts(size)
                &&& t.grants < MAX_TEXTURE_GRANTS && t.packer.can_open_shelf(
                    size.width.0 as int,
                    size.height.0 as int,
                ) ==> r is Some
                &&& !tile_fits(size, t.size) ==> r is None
            }),
    {
        let mut slot: Option<AtlasTexture> = None;
        assert(old(self)@.slots[index as int] == slot_view(self.textures@[index as int]));
        self.textures.set_and_swap(index, &mut slot);
        match slot {
            Some(mut texture) => {
                let allocated = texture.allocate(size);
                self.textures.set(index, Some(texture));
                match allocated {
                    Some(tile) => {
                        assert(old(self)@.grew_at(self@, index as int, tile));
                        Some(tile)
                    },
                    None => {
                        assert(self@.slots =~= old(self)@.slots);
                        None
                    },
                }
            },
            None => {
                assert(false);
                None
            },
        }
    }

    fn slot_count(&self) -> (r: usize)
        ensures
            r == self@.slots.len(),
    {
        self.textures.len()
    }

    fn texture(&self, index: usize) -> (r: &AtlasTexture)
        requires
            index < self@.slots.len(),
            self@.slots[index as int] is Some,
        ensures
            Some(r@) == self@.slots[index as int],
    {
        assert(self@.slots[index as int] == slot_view(self.textures@[index as int]));
        self.textures[index].as_ref().unwrap()
    }

    /// Gives back the tile with packer id `tile_id` to the texture of slot `index`; a texture
    /// left without tiles is dropped and its slot freed. Returns whether that happened.
    fn release(&mut self, index: usize, tile_id: u32) -> (freed: bool)
        requires
            old(self)@.slots_wf(),
            old(self)@.free_wf(),
            index < old(self)@.slots.len() ==> (old(self)@.slots[index as int] is Some
                ==> old(self)@.slots[index as int]->0.packer.live_keys.count(bucket_key(tile_id)) > 0),
        ensures
            final(self)@.slots_wf(),
            index >= old(self)@.slots.len() || old(self)@.slots[index as int] is None ==> {
                &&& final(self)@ == old(self)@
                &&& !freed
            },
            index < old(self)@.slots.len() && old(self)@.slots[index as int] is Some ==> {
                &&& old(self)@.released_at(final(self)@, index as int, tile_id)
                &&& freed == (old(self)@.slots[index as int]->0.live_atlas_keys == 1)
            },
    {
        if index >= self.textures.len() {
            return false;
        }
        let mut slot: Option<AtlasTexture> = None;
        assert(old(self)@.slots[index as int] == slot_view(self.textures@[index as int]));
        self.textures.set_and_swap(index, &mut slot);
        match slot {
            Some(mut texture) => {
                let ghost before = texture@;
                shelf_deallocate(&mut texture.allocator, tile_id);
                texture.decrement_ref_count();
                if texture.is_unreferenced() {
                    self.free_list.push(texture.id.index as usize);
                    assert(old(self)@.released_at(self@, index as int, tile_id));
                    true
                } else {
                    let ghost after = texture@;
                    self.textures.set(index, Some(texture));
                    assert(before.shrank(after, tile_id));
                    assert(old(self)@.released_at(self@, index as int, tile_id));
                    false
                }
            },
            None => {
                assert(self@.slots =~= old(self)@.slots);
                false
            },
        }
    }
}

/// The bytes of one texel follow the pixel format of the kind: one 8-bit channel for a
/// monochrome texture, four for the color formats of polychrome and subpixel textures.
pub proof fn lemma_texel_layout_by_kind(kind: AtlasTextureKind)
    ensures
        kind == AtlasTextureKind::Monochrome ==> spec_pixel_format(kind) == PixelFormat::R8Unorm,
        kind == AtlasTextureKind::Polychrome ==> spec_pixel_format(kind) == PixelFormat::B8G8R8A8Unorm,
        kind == AtlasTextureKind::Subpixel ==> spec_pixel_format(kind) == PixelFormat::R8G8B8A8Unorm,
        spec_pixel_format(kind) == PixelFormat::R8Unorm ==> spec_bytes_per_pixel(kind) == 1,
        spec_pixel_format(kind) == PixelFormat::B8G8R8A8Unorm ==> spec_bytes_per_pixel(kind) == 4,
        spec_pixel_format(kind) == PixelFormat::R8G8B8A8Unorm ==> spec_bytes_per_pixel(kind) == 4,
{
}

/// A new texture's format and bytes per texel depend on its kind alone, not on whether it is
/// mipmapped or on its size, and the bytes per texel match the format.
pub proof fn lemma_descriptor_format_by_kind(
    size_a: Size,
    size_b: Size,
    kind: AtlasTextureKind,
    mipmapped_a: bool,
    mipmapped_b: bool,
)
    ensures
        spec_texture_descriptor(size_a, kind, mipmapped_a).format == spec_texture_descriptor(
            size_b,
            kind,
            mipmapped_b,
        ).format,
        spec_texture_descriptor(size_a, kind, mipmapped_a).bytes_per_pixel == spec_texture_descriptor(
            size_b,
            kind,
            mipmapped_b,
        ).bytes_per_pixel,
        kind == AtlasTextureKind::Monochrome ==> spec_texture_descriptor(size_a, kind, mipmapped_a).format
            == PixelFormat::R8Unorm,
        kind == AtlasTextureKind::Polychrome ==> spec_texture_descriptor(size_a, kind, mipmapped_a).format
            == PixelFormat::B8G8R8A8Unorm,
        kind == AtlasTextureKind::Subpixel ==> spec_texture_descriptor(size_a, kind, mipmapped_a).format
            == PixelFormat::R8G8B8A8Unorm,
        spec_texture_descriptor(size_a, kind, mipmapped_a).bytes_per_pixel == (if spec_texture_descriptor(
            size_a,
            kind,
            mipmapped_a,
        ).format == PixelFormat::R8Unorm {
            1u32
        } else {
            4u32
        }),
{
}

/// A mipmapped texture asks for the full mip chain and lets the device render into it to
/// generate the mips; a shared atlas has one level and neither flag.
pub proof fn lemma_descriptor_mips(size: Size, kind: AtlasTextureKind, mipmapped: bool)
    ensures
        spec_texture_descriptor(size, kind, mipmapped).kind == kind,
        mipmapped ==> {
            let d = spec_texture_descriptor(size, kind, mipmapped);
            d.mip_levels == 0 && d.render_target && d.generate_mips
        },
        !mipmapped ==> {
            let d = spec_texture_descriptor(size, kind, mipmapped);
            d.mip_levels == 1 && !d.render_target && !d.generate_mips
        },
{
}

pub fn bytes_per_pixel(kind: AtlasTextureKind) -> (r: u32)
    ensures
        r == spec_bytes_per_pixel(kind),
        kind == AtlasTextureKind::Monochrome ==> r == 1,
        kind == AtlasTextureKind::Polychrome ==> r == 4,
        kind == AtlasTextureKind::Subpixel ==> r == 4,
{
    match kind {
        AtlasTextureKind::Monochrome => 1,
        AtlasTextureKind::Polychrome => 4,
        AtlasTextureKind::Subpixel => 4,
    }
}

/// The corner of an allocated rectangle, in device pixels.
pub fn etagere_point_to_device(x: i32, y: i32) -> (r: Point)
    ensures
        r == (Point { x: DevicePixels(x), y: DevicePixels(y) }),
{
    Point { x: DevicePixels(x), y: DevicePixels(y) }
}

/// The tile of `size` that a texture's packer placed at `rect`: it starts at the rectangle's
/// top-left corner and keeps the packer's id.
pub fn tile_for_allocation(texture_id: AtlasTextureId, rect: &AllocatedRect, size: Size) -> (r: AtlasTile)
    ensures
        r == (AtlasTile {
            texture_id,
            tile_id: AtlasTileId(rect.id),
            bounds: Bounds { origin: Point { x: DevicePixels(rect.min_x), y: DevicePixels(rect.min_y) }, size },
            padding: 0,
        }),
{
    AtlasTile {
        texture_id,
        tile_id: AtlasTileId(rect.id),
        bounds: Bounds { origin: etagere_point_to_device(rect.min_x, rect.min_y), size },
        padding: 0,
    }
}

/// A tile of `tile` size has some area and is no larger than a texture of `size`.
pub open spec fn tile_fits(tile: Size, size: Size) -> bool {
    &&& 0 < tile.width.0 <= size.width.0
    &&& 0 < tile.height.0 <= size.height.0
}

/// A tile of `bounds` lies inside a texture of `size`, and has some area.
pub open spec fn tile_inside(bounds: Bounds, size: Size) -> bool {
    &&& 0 <= bounds.origin.x.0
    &&& 0 <= bounds.origin.y.0
    &&& 0 < bounds.size.width.0
    &&& 0 < bounds.size.height.0
    &&& bounds.origin.x.0 + bounds.size.width.0 <= size.width.0
    &&& bounds.origin.y.0 + bounds.size.height.0 <= size.height.0
}

/// The keys of the cached tiles that lie in texture `id`.
pub open spec fn tiles_on(tiles: Map<u64, AtlasTile>, id: AtlasTextureId) -> Set<u64> {
    tiles.dom().filter(|k: u64| tiles[k].texture_id == id)
}

/// The keys of the cached tiles of texture `id` whose packer ids fall in the bucket with `key`.
pub open spec fn keyed_tiles(tiles: Map<u64, AtlasTile>, id: AtlasTextureId, key: u32) -> Set<u64> {
    tiles_on(tiles, id).filter(|k: u64| bucket_key(tiles[k].tile_id.0) == key)
}

/// No two cached tiles of one texture overlap.
pub open spec fn tiles_disjoint(tiles: Map<u64, AtlasTile>) -> bool {
    forall|k1: u64, k2: u64|
        #![trigger tiles[k1], tiles[k2]]
        tiles.contains_key(k1) && tiles.contains_key(k2) && k1 != k2
            && tiles[k1].texture_id == tiles[k2].texture_id
            ==> bounds_pixels(tiles[k1].bounds).disjoint(bounds_pixels(tiles[k2].bounds))
}

/// A texture of the list of `kind` agrees with the cached tiles: its packer holds one item per
/// cached tile in it, bucket by bucket, each tile lies in the room that its bucket handed out,
/// its count of live keys is its number of tiles, and a mipmapped texture holds at most one.
pub open spec fn texture_wf(t: TextureView, kind: AtlasTextureKind, tiles: Map<u64, AtlasTile>) -> bool {
    &&& t.id.kind == kind
    &&& t.bytes_per_pixel == spec_bytes_per_pixel(kind)
    &&& forall|q: u32| #[trigger] t.packer.live_keys.count(q) == keyed_tiles(tiles, t.id, q).len()
    &&& t.live_atlas_keys == tiles_on(tiles, t.id).len()
    &&& forall|k: u64|
        #[trigger] tiles_on(tiles, t.id).contains(k) ==> bounds_pixels(tiles[k].bounds).subset_of(
            (t.packer.used)(bucket_key(tiles[k].tile_id.0)),
        )
    &&& t.mipmapped ==> t.live_atlas_keys <= 1
}

pub open spec fn list_wf(l: TextureListView, kind: AtlasTextureKind, tiles: Map<u64, AtlasTile>) -> bool {
    &&& l.slots_wf()
    &&& l.free_wf()
    &&& l.slots.len() <= u32::MAX
    &&& forall|i: int|
        0 <= i < l.slots.len() && #[trigger] l.slots[i] is Some
            ==> texture_wf(l.slots[i]->0, kind, tiles)
}

/// Texture `id` sees the same tiles under `tiles` and `new_tiles`.
pub open spec fn same_tiles_on(tiles: Map<u64, AtlasTile>, new_tiles: Map<u64, AtlasTile>, id: AtlasTextureId) -> bool {
    &&& tiles_on(new_tiles, id) == tiles_on(tiles, id)
    &&& forall|q: u32| #[trigger] keyed_tiles(new_tiles, id, q) == keyed_tiles(tiles, id, q)
    &&& forall|k: u64| #[trigger] tiles_on(tiles, id).contains(k) ==> new_tiles[k] == tiles[k]
}

proof fn lemma_tiles_finite(tiles: Map<u64, AtlasTile>, id: AtlasTextureId, q: u32)
    requires
        tiles.dom().finite(),
    ensures
        tiles_on(tiles, id).finite(),
        keyed_tiles(tiles, id, q).finite(),
{
    tiles.dom().lemma_len_filter(|k: u64| tiles[k].texture_id == id);
    tiles_on(tiles, id).lemma_len_filter(|k: u64| bucket_key(tiles[k].tile_id.0) == q);
}

/// Caching a new key changes only the tiles of the texture it goes to, by that key.
proof fn lemma_tiles_insert(tiles: Map<u64, AtlasTile>, k: u64, tile: AtlasTile, id: AtlasTextureId)
    requires
        !tiles.contains_key(k),
        tiles.dom().finite(),
    ensures
        tile.texture_id != id ==> same_tiles_on(tiles, tiles.insert(k, tile), id),
        tile.texture_id == id ==> {
            &&& tiles_on(tiles.insert(k, tile), id) == tiles_on(tiles, id).insert(k)
            &&& tiles_on(tiles.insert(k, tile), id).len() == tiles_on(tiles, id).len() + 1
            &&& forall|q: u32| #[trigger] keyed_tiles(tiles.insert(k, tile), id, q).len() == (if bucket_key(tile.tile_id.0) == q {
                keyed_tiles(tiles, id, q).len() + 1int
            } else {
                keyed_tiles(tiles, id, q).len() as int
            })
        },
{
    let new = tiles.insert(k, tile);
    assert(tiles_on(new, id) =~= if tile.texture_id == id {
        tiles_on(tiles, id).insert(k)
    } else {
        tiles_on(tiles, id)
    });
    assert forall|q: u32| #[trigger] keyed_tiles(new, id, q) == (if tile.texture_id == id && bucket_key(tile.tile_id.0) == q {
        keyed_tiles(tiles, id, q).insert(k)
    } else {
        keyed_tiles(tiles, id, q)
    }) by {
        assert(keyed_tiles(new, id, q) =~= (if tile.texture_id == id && bucket_key(tile.tile_id.0) == q {
            keyed_tiles(tiles, id, q).insert(k)
        } else {
            keyed_tiles(tiles, id, q)
        }));
        lemma_tiles_finite(tiles, id, q);
    }
    lemma_tiles_finite(tiles, id, 0);
}

/// Dropping a cached key changes only the tiles of the texture it lay in, by that key.
proof fn lemma_tiles_remove(tiles: Map<u64, AtlasTile>, k: u64, id: AtlasTextureId)
    requires
        tiles.contains_key(k),
        tiles.dom().finite(),
    ensures
        tiles[k].texture_id != id ==> same_tiles_on(tiles, tiles.remove(k), id),
        tiles[k].texture_id == id ==> {
            &&& tiles_on(tiles.remove(k), id) == tiles_on(tiles, id).remove(k)
            &&& tiles_on(tiles.remove(k), id).len() == tiles_on(tiles, id).len() - 1
            &&& forall|q: u32| #[trigger] keyed_tiles(tiles.remove(k), id, q).len() == (if bucket_key(tiles[k].tile_id.0) == q {
                keyed_tiles(tiles, id, q).len() - 1
            } else {
                keyed_tiles(tiles, id, q).len() as int
            })
            &&& forall|q: u32| #[trigger] keyed_tiles(tiles.remove(k), id, q) == keyed_tiles(tiles, id, q).remove(k)
        },
{
    let new = tiles.remove(k);
    let tile = tiles[k];
    assert(tiles_on(new, id) =~= if tile.texture_id == id {
        tiles_on(tiles, id).remove(k)
    } else {
        tiles_on(tiles, id)
    });
    assert forall|q: u32| #[trigger] keyed_tiles(new, id, q) == (if tile.texture_id == id {
        keyed_tiles(tiles, id, q).remove(k)
    } else {
        keyed_tiles(tiles, id, q)
    }) by {
        assert(keyed_tiles(new, id, q) =~= (if tile.texture_id == id {
            keyed_tiles(tiles, id, q).remove(k)
        } else {
            keyed_tiles(tiles, id, q)
        }));
        lemma_tiles_finite(tiles, id, q);
    }
    lemma_tiles_finite(tiles, id, 0);
}

/// A tile that starts at the corner of a granted rectangle, with the rectangle's width and at
/// most its height, lies in it.
proof fn lemma_tile_in_rect(bounds: Bounds, rect: AllocatedRect)
    requires
        rect.min_x == bounds.origin.x.0,
        rect.min_y == bounds.origin.y.0,
        rect.max_x - rect.min_x == bounds.size.width.0,
        rect.max_y - rect.min_y >= bounds.size.height.0,
    ensures
        bounds_pixels(bounds).subset_of(rect.pixels()),
{
}

/// A list keeps its invariant when its textures see the same tiles under the new tiles.
proof fn lemma_list_frame(
    l: TextureListView,
    kind: AtlasTextureKind,
    tiles: Map<u64, AtlasTile>,
    new_tiles: Map<u64, AtlasTile>,
)
    requires
        list_wf(l, kind, tiles),
        forall|id: AtlasTextureId| id.kind == kind ==> #[trigger] same_tiles_on(tiles, new_tiles, id),
    ensures
        list_wf(l, kind, new_tiles),
{
    assert forall|i: int| 0 <= i < l.slots.len() && #[trigger] l.slots[i] is Some implies texture_wf(
        l.slots[i]->0,
        kind,
        new_tiles,
    ) by {
        let t = l.slots[i]->0;
        assert(texture_wf(t, kind, tiles));
        assert(same_tiles_on(tiles, new_tiles, t.id));
        assert forall|q: u32| #[trigger] t.packer.live_keys.count(q) == keyed_tiles(new_tiles, t.id, q).len() by {
            assert(keyed_tiles(new_tiles, t.id, q) == keyed_tiles(tiles, t.id, q));
        }
    }
}

/// A finite set of one element holds nothing else.
proof fn lemma_singleton(s: Set<u64>, x: u64, y: u64)
    requires
        s.finite(),
        s.len() == 1,
        s.contains(x),
        s.contains(y),
    ensures
        x == y,
{
    assert(s.remove(x).len() == 0);
    if x != y {
        assert(s.remove(x).contains(y));
    }
}

/// Releasing the tile of key `k` from its texture keeps the list's invariant; a texture that
/// gets released held no other tile.
proof fn lemma_release_list(
    l: TextureListView,
    next: TextureListView,
    kind: AtlasTextureKind,
    tiles: Map<u64, AtlasTile>,
    k: u64,
)
    requires
        list_wf(l, kind, tiles),
        tiles.dom().finite(),
        tiles.contains_key(k),
        tiles[k].texture_id.kind == kind,
        (tiles[k].texture_id.index as int) < l.slots.len(),
        l.slots[tiles[k].texture_id.index as int] is Some,
        l.released_at(next, tiles[k].texture_id.index as int, tiles[k].tile_id.0),
        next.slots_wf(),
    ensures
        list_wf(next, kind, tiles.remove(k)),
        l.slots[tiles[k].texture_id.index as int]->0.live_atlas_keys == 1 ==> forall|k2: u64|
            #[trigger] tiles.remove(k).contains_key(k2) ==> tiles[k2].texture_id
                != tiles[k].texture_id,
{
    let tile = tiles[k];
    let j = tile.texture_id.index as int;
    let t = l.slots[j]->0;
    let id = tile.texture_id;
    let key = bucket_key(tile.tile_id.0);
    let new_tiles = tiles.remove(k);
    assert(texture_wf(t, kind, tiles));
    assert(t.id == id);
    assert forall|id2: AtlasTextureId| id2 != id implies #[trigger] same_tiles_on(tiles, new_tiles, id2) by {
        lemma_tiles_remove(tiles, k, id2);
    }
    lemma_tiles_remove(tiles, k, id);
    lemma_tiles_finite(tiles, id, key);
    assert(tiles_on(tiles, id).contains(k));
    assert(keyed_tiles(tiles, id, key).contains(k));
    if t.live_atlas_keys == 1 {
        assert forall|k2: u64| #[trigger] new_tiles.contains_key(k2) implies tiles[k2].texture_id != id by {
            if tiles[k2].texture_id == id {
                assert(tiles_on(tiles, id).contains(k2));
                lemma_singleton(tiles_on(tiles, id), k, k2);
            }
        }
        assert(!l.free_list.contains(j as usize));
        assert forall|i: int| 0 <= i < next.slots.len() && #[trigger] next.slots[i] is Some implies texture_wf(
            next.slots[i]->0,
            kind,
            new_tiles,
        ) by {
            assert(i != j);
            assert(next.slots[i] == l.slots[i]);
            let ti = l.slots[i]->0;
            assert(texture_wf(ti, kind, tiles));
            assert(ti.id.index == i);
            assert(same_tiles_on(tiles, new_tiles, ti.id));
            assert forall|q: u32| #[trigger] ti.packer.live_keys.count(q) == keyed_tiles(new_tiles, ti.id, q).len() by {
                assert(keyed_tiles(new_tiles, ti.id, q) == keyed_tiles(tiles, ti.id, q));
            }
        }
        assert forall|i: int| 0 <= i < next.slots.len() && #[trigger] next.slots[i] is None implies next.free_list.contains(
            i as usize,
        ) by {
            if i != j {
                assert(l.slots[i] is None);
                assert(l.free_list.contains(i as usize));
                let x = choose|x: int| 0 <= x < l.free_list.len() && l.free_list[x] == i as usize;
                assert(next.free_list[x] == i as usize);
            } else {
                assert(next.free_list[l.free_list.len() as int] == j as usize);
            }
        }
        assert forall|x: int| 0 <= x < next.free_list.len() implies {
            &&& (#[trigger] next.free_list[x] as int) < next.slots.len()
            &&& next.slots[next.free_list[x] as int] is None
        } by {
            if x < l.free_list.len() {
                assert(next.free_list[x] == l.free_list[x]);
            }
        }
        assert(next.free_wf());
    } else {
        let t2 = next.slots[j]->0;
        assert(t.shrank(t2, tile.tile_id.0));
        assert forall|i: int| 0 <= i < next.slots.len() && #[trigger] next.slots[i] is Some implies texture_wf(
            next.slots[i]->0,
            kind,
            new_tiles,
        ) by {
            if i != j {
                assert(next.slots[i] == l.slots[i]);
                let ti = l.slots[i]->0;
                assert(texture_wf(ti, kind, tiles));
                assert(ti.id.index == i);
                assert(same_tiles_on(tiles, new_tiles, ti.id));
                assert forall|q: u32| #[trigger] ti.packer.live_keys.count(q) == keyed_tiles(new_tiles, ti.id, q).len() by {
                    assert(keyed_tiles(new_tiles, ti.id, q) == keyed_tiles(tiles, ti.id, q));
                }
            } else {
                assert forall|q: u32| #[trigger] t2.packer.live_keys.count(q) == keyed_tiles(new_tiles, id, q).len() by {
                    assert(keyed_tiles(new_tiles, id, q).len() == (if key == q {
                        keyed_tiles(tiles, id, q).len() - 1
                    } else {
                        keyed_tiles(tiles, id, q).len() as int
                    }));
                }
                assert forall|k2: u64| #[trigger] tiles_on(new_tiles, id).contains(k2) implies bounds_pixels(
                    new_tiles[k2].bounds,
                ).subset_of((t2.packer.used)(bucket_key(new_tiles[k2].tile_id.0))) by {
                    assert(tiles_on(tiles, id).contains(k2));
                    assert(new_tiles[k2] == tiles[k2]);
                    let q2 = bucket_key(tiles[k2].tile_id.0);
                    if t.packer.live_keys.count(key) == 1 && q2 == key {
                        assert(keyed_tiles(tiles, id, key).contains(k2));
                        lemma_tiles_finite(tiles, id, key);
                        assert(keyed_tiles(tiles, id, key).len() == 1);
                        assert(keyed_tiles(tiles, id, key).remove(k).len() == 0);
                        assert(keyed_tiles(tiles, id, key).remove(k).contains(k2));
                    }
                }
            }
        }
        assert forall|i: int| 0 <= i < next.slots.len() && #[trigger] next.slots[i] is None implies next.free_list.contains(
            i as usize,
        ) by {
            assert(l.slots[i] is None);
        }
        assert(next.free_wf());
    }
}

/// Adding the tile of a new key `k` to the texture that placed it keeps the list's invariant.
proof fn lemma_add_tile_list(
    l: TextureListView,
    next: TextureListView,
    kind: AtlasTextureKind,
    tiles: Map<u64, AtlasTile>,
    k: u64,
    tile: AtlasTile,
)
    requires
        list_wf(l, kind, tiles),
        tiles.dom().finite(),
        !tiles.contains_key(k),
        tile.texture_id.kind == kind,
        l.grew_at(next, tile.texture_id.index as int, tile),
        next.slots_wf(),
        l.slots[tile.texture_id.index as int]->0.mipmapped ==> l.slots[tile.texture_id.index as int]->0.live_atlas_keys == 0,
    ensures
        list_wf(next, kind, tiles.insert(k, tile)),
{
    let j = tile.texture_id.index as int;
    let t = l.slots[j]->0;
    let t2 = next.slots[j]->0;
    let id = tile.texture_id;
    let key = bucket_key(tile.tile_id.0);
    let new_tiles = tiles.insert(k, tile);
    assert(texture_wf(t, kind, tiles));
    assert forall|id2: AtlasTextureId| id2 != id implies #[trigger] same_tiles_on(tiles, new_tiles, id2) by {
        lemma_tiles_insert(tiles, k, tile, id2);
    }
    lemma_tiles_insert(tiles, k, tile, id);
    let rect = choose|rect: AllocatedRect|
        #[trigger] t.packer.grants(
            t2.packer,
            tile.bounds.size.width.0 as int,
            tile.bounds.size.height.0 as int,
            rect,
        ) && rect.id == tile.tile_id.0 && rect.min_x == tile.bounds.origin.x.0 && rect.min_y
            == tile.bounds.origin.y.0;
    lemma_tile_in_rect(tile.bounds, rect);
    assert forall|i: int| 0 <= i < next.slots.len() && #[trigger] next.slots[i] is Some implies texture_wf(
        next.slots[i]->0,
        kind,
        new_tiles,
    ) by {
        if i != j {
            assert(next.slots[i] == l.slots[i]);
            let ti = l.slots[i]->0;
            assert(texture_wf(ti, kind, tiles));
            assert(ti.id.index == i);
            assert(same_tiles_on(tiles, new_tiles, ti.id));
            assert forall|q: u32| #[trigger] ti.packer.live_keys.count(q) == keyed_tiles(new_tiles, ti.id, q).len() by {
                assert(keyed_tiles(new_tiles, ti.id, q) == keyed_tiles(tiles, ti.id, q));
            }
        } else {
            assert forall|q: u32| #[trigger] t2.packer.live_keys.count(q) == keyed_tiles(new_tiles, id, q).len() by {
                assert(keyed_tiles(new_tiles, id, q).len() == (if key == q {
                    keyed_tiles(tiles, id, q).len() + 1int
                } else {
                    keyed_tiles(tiles, id, q).len() as int
                }));
            }
            assert forall|k2: u64| #[trigger] tiles_on(new_tiles, id).contains(k2) implies bounds_pixels(
                new_tiles[k2].bounds,
            ).subset_of((t2.packer.used)(bucket_key(new_tiles[k2].tile_id.0))) by {
                if k2 != k {
                    assert(tiles_on(tiles, id).contains(k2));
                    let q2 = bucket_key(tiles[k2].tile_id.0);
                    assert(bounds_pixels(tiles[k2].bounds).subset_of((t.packer.used)(q2)));
                    if q2 == key {
                        assert((t2.packer.used)(key) == (t.packer.used)(key) + rect.pixels());
                    } else {
                        assert((t2.packer.used)(q2) == (t.packer.used)(q2));
                    }
                } else {
                    assert((t2.packer.used)(key) == (t.packer.used)(key) + rect.pixels());
                }
            }
        }
    }
    assert forall|i: int| 0 <= i < next.slots.len() && #[trigger] next.slots[i] is None implies next.free_list.contains(
        i as usize,
    ) by {
        assert(l.slots[i] is None);
    }
    assert(next.free_wf());
}

/// Placing a fresh texture in the next slot keeps the list's invariant, when no cached tile
/// names that slot.
proof fn lemma_push_texture_list(
    l: TextureListView,
    next: TextureListView,
    kind: AtlasTextureKind,
    tiles: Map<u64, AtlasTile>,
    size: Size,
    mipmapped: bool,
)
    requires
        list_wf(l, kind, tiles),
        tiles.dom().finite(),
        l.slots.len() < u32::MAX,
        next.slots_wf(),
        next == l.with_texture_pushed(next.slots[l.next_index()]->0),
        next.slots[l.next_index()]->0.is_fresh(
            AtlasTextureId { index: l.next_index() as u32, kind },
            size,
            mipmapped,
        ),
        forall|k: u64|
            tiles.contains_key(k) ==> (#[trigger] tiles[k]).texture_id
                != (AtlasTextureId { index: l.next_index() as u32, kind }),
    ensures
        l.next_index() <= l.slots.len(),
        l.next_index() < l.slots.len() ==> l.slots[l.next_index()] is None,
        list_wf(next, kind, tiles),
{
    let id = AtlasTextureId { index: l.next_index() as u32, kind };
    let j = l.next_index();
    let v = next.slots[j]->0;
    assert(tiles_on(tiles, id) =~= Set::<u64>::empty());
    assert forall|q: u32| #[trigger] keyed_tiles(tiles, id, q) =~= Set::<u64>::empty() by {}
    if l.free_list.len() > 0 {
        let last = l.free_list.len() - 1;
        assert(l.free_list[last] == j);
        assert forall|x: int| 0 <= x < next.free_list.len() implies {
            &&& (#[trigger] next.free_list[x] as int) < next.slots.len()
            &&& next.slots[next.free_list[x] as int] is None
        } by {
            assert(next.free_list[x] == l.free_list[x]);
            assert(l.free_list[x] != l.free_list[last]);
        }
        assert forall|i: int| 0 <= i < next.slots.len() && #[trigger] next.slots[i] is None implies next.free_list.contains(
            i as usize,
        ) by {
            assert(l.slots[i] is None);
            assert(l.free_list.contains(i as usize));
            let x = choose|x: int| 0 <= x < l.free_list.len() && l.free_list[x] == i as usize;
            assert(x != last);
            assert(next.free_list[x] == i as usize);
        }
        assert(next.free_list.no_duplicates());
    } else {
        assert forall|i: int| 0 <= i < next.slots.len() && #[trigger] next.slots[i] is None implies next.free_list.contains(
            i as usize,
        ) by {
            assert(l.slots[i] is None);
        }
    }
    assert forall|i: int| 0 <= i < next.slots.len() && #[trigger] next.slots[i] is Some implies texture_wf(
        next.slots[i]->0,
        kind,
        tiles,
    ) by {
        if i != j {
            assert(l.slots[i] is Some);
            assert(texture_wf(l.slots[i]->0, kind, tiles));
        } else {
            assert forall|q: u32| #[trigger] v.packer.live_keys.count(q) == keyed_tiles(tiles, id, q).len() by {
                assert(keyed_tiles(tiles, id, q) =~= Set::<u64>::empty());
            }
        }
    }
}

/// The texture made for a tile is never smaller than the tile, up to the device limit: a shared
/// atlas has sides of at least `DEFAULT_ATLAS_DIMENSION` (exactly that for a tile no larger),
/// and a texture of its own has the tile's size.
pub proof fn lemma_new_texture_holds_tile(size: Size, mipmapped: bool)
    requires
        0 < size.width.0 <= MAX_ATLAS_DIMENSION,
        0 < size.height.0 <= MAX_ATLAS_DIMENSION,
    ensures
        size.width.0 <= spec_texture_size(size, mipmapped).width.0 <= MAX_ATLAS_DIMENSION,
        size.height.0 <= spec_texture_size(size, mipmapped).height.0 <= MAX_ATLAS_DIMENSION,
        mipmapped ==> spec_texture_size(size, mipmapped) == size,
        !mipmapped ==> DEFAULT_ATLAS_DIMENSION <= spec_texture_size(size, mipmapped).width.0,
        !mipmapped ==> DEFAULT_ATLAS_DIMENSION <= spec_texture_size(size, mipmapped).height.0,
        !mipmapped && size.width.0 <= DEFAULT_ATLAS_DIMENSION && size.height.0 <= DEFAULT_ATLAS_DIMENSION
            ==> spec_texture_size(size, mipmapped) == (Size {
                width: DevicePixels(DEFAULT_ATLAS_DIMENSION),
                height: DevicePixels(DEFAULT_ATLAS_DIMENSION),
            }),
{
}

/// What the caller does after asking for room for a tile.
pub enum AllocationStep {
    /// The tile was placed in an existing texture and cached.
    Allocated(AtlasTile),
    /// No existing texture took the tile: make a device texture as described, then call
    /// `allocate_in_new_texture`.
    NeedsTexture(TextureDescriptor),
}

/// How to make the device texture for a new atlas texture.
#[derive(Clone, Copy, PartialEq, Eq, Debug, Structural)]
pub struct TextureDescriptor {
    pub size: Size,
    pub kind: AtlasTextureKind,
    pub format: PixelFormat,
    pub bytes_per_pixel: u32,
    /// The number of mip levels; 0 asks for the full chain.
    pub mip_levels: u32,
    /// Whether the texture is also bound as a render target (needed to generate mips).
    pub render_target: bool,
    /// Whether the texture lets the device generate its mips.
    pub generate_mips: bool,
}

pub open spec fn spec_texture_descriptor(min_size: Size, kind: AtlasTextureKind, mipmapped: bool) -> TextureDescriptor {
    TextureDescriptor {
        size: spec_texture_size(min_size, mipmapped),
        kind,
        format: spec_pixel_format(kind),
        bytes_per_pixel: spec_bytes_per_pixel(kind),
        mip_levels: if mipmapped { 0 } else { 1 },
        render_target: mipmapped,
        generate_mips: mipmapped,
    }
}

/// The size of the texture made for an item of `min_size` (see `spec_texture_size`).
pub fn texture_size(min_size: Size, mipmapped: bool) -> (r: Size)
    ensures
        r == spec_texture_size(min_size, mipmapped),
{
    let max_size = Size {
        width: DevicePixels(MAX_ATLAS_DIMENSION),
        height: DevicePixels(MAX_ATLAS_DIMENSION),
    };
    let default_size = Size {
        width: DevicePixels(DEFAULT_ATLAS_DIMENSION),
        height: DevicePixels(DEFAULT_ATLAS_DIMENSION),
    };
    if mipmapped {
        min_size.min(&max_size)
    } else {
        min_size.min(&max_size).max(&default_size)
    }
}

/// How to make the device texture that an item of `min_size` and `kind` goes to.
pub fn texture_descriptor(min_size: Size, kind: AtlasTextureKind, mipmapped: bool) -> (r: TextureDescriptor)
    ensures
        r == spec_texture_descriptor(min_size, kind, mipmapped),
        kind == AtlasTextureKind::Monochrome ==> r.format == PixelFormat::R8Unorm && r.bytes_per_pixel == 1,
        kind == AtlasTextureKind::Polychrome ==> r.format == PixelFormat::B8G8R8A8Unorm && r.bytes_per_pixel
            == 4,
        kind == AtlasTextureKind::Subpixel ==> r.format == PixelFormat::R8G8B8A8Unorm && r.bytes_per_pixel
            == 4,
        r.kind == kind,
        mipmapped ==> r.mip_levels == 0 && r.render_target && r.generate_mips,
        !mipmapped ==> r.mip_levels == 1 && !r.render_target && !r.generate_mips,
        mipmapped && min_size.width.0 <= MAX_ATLAS_DIMENSION && min_size.height.0 <= MAX_ATLAS_DIMENSION
            ==> r.size == min_size,
        !mipmapped ==> DEFAULT_ATLAS_DIMENSION <= r.size.width.0 <= MAX_ATLAS_DIMENSION
            && DEFAULT_ATLAS_DIMENSION <= r.size.height.0 <= MAX_ATLAS_DIMENSION,
        !mipmapped && min_size.width.0 <= DEFAULT_ATLAS_DIMENSION && min_size.height.0
            <= DEFAULT_ATLAS_DIMENSION ==> r.size.width.0 == DEFAULT_ATLAS_DIMENSION
            && r.size.height.0 == DEFAULT_ATLAS_DIMENSION,
{
    let format = match kind {
        AtlasTextureKind::Monochrome => PixelFormat::R8Unorm,
        AtlasTextureKind::Polychrome => PixelFormat::B8G8R8A8Unorm,
        AtlasTextureKind::Subpixel => PixelFormat::R8G8B8A8Unorm,
    };
    TextureDescriptor {
        size: texture_size(min_size, mipmapped),
        kind,
        format,
        bytes_per_pixel: bytes_per_pixel(kind),
        mip_levels: if mipmapped { 0 } else { 1 },
        render_target: mipmapped,
        generate_mips: mipmapped,
    }
}

/// Whether an item gets a mipmapped texture of its own: an image with a side of at least
/// `MIPMAP_MIN_DIMENSION` pixels.
pub fn needs_own_texture(key: &AtlasKey, size: Size) -> (r: bool)
    ensures
        r == (key.is_image && (size.width.0 >= MIPMAP_MIN_DIMENSION
            || size.height.0 >= MIPMAP_MIN_DIMENSION)),
{
    key.is_image && size.width.0.max(size.height.0) >= MIPMAP_MIN_DIMENSION
}

/// The packing state of a texture atlas: three lists of textures, one per kind, and the cache
/// of tiles by key.
pub struct AtlasState {
    monochrome_textures: AtlasTextureList,
    polychrome_textures: AtlasTextureList,
    subpixel_textures: AtlasTextureList,
    tiles_by_key: HashMap<u64, AtlasTile>,
}

impl View for AtlasState {
    type V = Map<u64, AtlasTile>;

    /// The cached tiles by key id.
    closed spec fn view(&self) -> Map<u64, AtlasTile> {
        self.tiles_by_key@
    }
}

impl AtlasState {
    /// The textures of `kind`.
    pub closed spec fn list(&self, kind: AtlasTextureKind) -> TextureListView {
        match kind {
            AtlasTextureKind::Monochrome => self.monochrome_textures@,
            AtlasTextureKind::Polychrome => self.polychrome_textures@,
            AtlasTextureKind::Subpixel => self.subpixel_textures@,
        }
    }

    /// The cached `tile` lies in a live texture of its kind, inside that texture.
    pub open spec fn holds_tile(&self, tile: AtlasTile) -> bool {
        let l = self.list(tile.texture_id.kind);
        let i = tile.texture_id.index as int;
        &&& i < l.slots.len()
        &&& l.slots[i] is Some
        &&& tile_inside(tile.bounds, l.slots[i]->0.size)
        &&& tile.padding == 0
    }

    pub open spec fn wf(&self) -> bool {
        &&& self@.dom().finite()
        &&& list_wf(self.list(AtlasTextureKind::Monochrome), AtlasTextureKind::Monochrome, self@)
        &&& list_wf(self.list(AtlasTextureKind::Polychrome), AtlasTextureKind::Polychrome, self@)
        &&& list_wf(self.list(AtlasTextureKind::Subpixel), AtlasTextureKind::Subpixel, self@)
        &&& forall|k: u64| self@.contains_key(k) ==> self.holds_tile(#[trigger] self@[k])
        &&& tiles_disjoint(self@)
    }

    /// An atlas with no texture and no tile.
    pub fn new() -> (r: AtlasState)
        ensures
            r.wf(),
            r@ == Map::<u64, AtlasTile>::empty(),
            forall|kind: AtlasTextureKind| #[trigger] r.list(kind).slots.len() == 0,
            forall|kind: AtlasTextureKind| #[trigger] r.list(kind).free_list.len() == 0,
    {
        let r = AtlasState {
            monochrome_textures: AtlasTextureList::new(),
            polychrome_textures: AtlasTextureList::new(),
            subpixel_textures: AtlasTextureList::new(),
            tiles_by_key: HashMap::new(),
        };
        assert(r@ =~= Map::<u64, AtlasTile>::empty());
        r
    }

    /// The invariant after the tile of key `k` left the cache and its texture.
    proof fn lemma_removed_wf(old_state: &AtlasState, new_state: &AtlasState, k: u64)
        requires
            old_state.wf(),
            old_state@.contains_key(k),
            new_state@ == old_state@.remove(k),
            old_state.list(old_state@[k].texture_id.kind).released_at(
                new_state.list(old_state@[k].texture_id.kind),
                old_state@[k].texture_id.index as int,
                old_state@[k].tile_id.0,
            ),
            new_state.list(old_state@[k].texture_id.kind).slots_wf(),
            forall|kind: AtlasTextureKind|
                kind != old_state@[k].texture_id.kind ==> #[trigger] new_state.list(kind)
                    == old_state.list(kind),
        ensures
            new_state.wf(),
    {
        let tiles = old_state@;
        let tile = tiles[k];
        let kind = tile.texture_id.kind;
        let j = tile.texture_id.index as int;
        assert(old_state.holds_tile(tiles[k]));
        lemma_release_list(old_state.list(kind), new_state.list(kind), kind, tiles, k);
        let t = old_state.list(kind).slots[j]->0;
        assert(t.id.index == j);
        assert(texture_wf(t, kind, tiles));
        assert forall|other: AtlasTextureKind| other != kind implies list_wf(
            #[trigger] new_state.list(other),
            other,
            new_state@,
        ) by {
            assert forall|id: AtlasTextureId| id.kind == other implies #[trigger] same_tiles_on(
                tiles,
                new_state@,
                id,
            ) by {
                lemma_tiles_remove(tiles, k, id);
            }
            lemma_list_frame(old_state.list(other), other, tiles, new_state@);
        }
        assert(list_wf(new_state.list(AtlasTextureKind::Monochrome), AtlasTextureKind::Monochrome, new_state@));
        assert(list_wf(new_state.list(AtlasTextureKind::Polychrome), AtlasTextureKind::Polychrome, new_state@));
        assert(list_wf(new_state.list(AtlasTextureKind::Subpixel), AtlasTextureKind::Subpixel, new_state@));
        assert forall|k2: u64| new_state@.contains_key(k2) implies new_state.holds_tile(
            #[trigger] new_state@[k2],
        ) by {
            let t2 = tiles[k2];
            assert(new_state@[k2] == t2);
            assert(old_state.holds_tile(tiles[k2]));
            if t2.texture_id.kind == kind && t2.texture_id.index as int == j {
                assert(old_state.list(kind).slots[j]->0.id.index == j);
                assert(t2.texture_id == tile.texture_id);
            }
        }
        assert(tiles_disjoint(new_state@));
    }

    /// The invariant after a new key `k` was cached with a tile freshly placed in its texture.
    proof fn lemma_added_wf(old_state: &AtlasState, new_state: &AtlasState, k: u64, tile: AtlasTile)
        requires
            old_state.wf(),
            !old_state@.contains_key(k),
            new_state@ == old_state@.insert(k, tile),
            old_state.list(tile.texture_id.kind).grew_at(
                new_state.list(tile.texture_id.kind),
                tile.texture_id.index as int,
                tile,
            ),
            old_state.list(tile.texture_id.kind).slots[tile.texture_id.index as int]->0.mipmapped
                ==> old_state.list(tile.texture_id.kind).slots[tile.texture_id.index as int]->0.live_atlas_keys == 0,
            new_state.list(tile.texture_id.kind).slots_wf(),
            forall|kind: AtlasTextureKind|
                kind != tile.texture_id.kind ==> #[trigger] new_state.list(kind)
                    == old_state.list(kind),
        ensures
            new_state.wf(),
    {
        let tiles = old_state@;
        let kind = tile.texture_id.kind;
        let j = tile.texture_id.index as int;
        let t = old_state.list(kind).slots[j]->0;
        let t2 = new_state.list(kind).slots[j]->0;
        let key = bucket_key(tile.tile_id.0);
        assert(t.id.index == j);
        assert(texture_wf(t, kind, tiles));
        lemma_add_tile_list(old_state.list(kind), new_state.list(kind), kind, tiles, k, tile);
        let rect = choose|rect: AllocatedRect|
            #[trigger] t.packer.grants(
                t2.packer,
                tile.bounds.size.width.0 as int,
                tile.bounds.size.height.0 as int,
                rect,
            ) && rect.id == tile.tile_id.0 && rect.min_x == tile.bounds.origin.x.0 && rect.min_y
                == tile.bounds.origin.y.0;
        lemma_tile_in_rect(tile.bounds, rect);
        assert forall|other: AtlasTextureKind| other != kind implies list_wf(
            #[trigger] new_state.list(other),
            other,
            new_state@,
        ) by {
            assert forall|id: AtlasTextureId| id.kind == other implies #[trigger] same_tiles_on(
                tiles,
                new_state@,
                id,
            ) by {
                lemma_tiles_insert(tiles, k, tile, id);
            }
            lemma_list_frame(old_state.list(other), other, tiles, new_state@);
        }
        assert(list_wf(new_state.list(AtlasTextureKind::Monochrome), AtlasTextureKind::Monochrome, new_state@));
        assert(list_wf(new_state.list(AtlasTextureKind::Polychrome), AtlasTextureKind::Polychrome, new_state@));
        assert(list_wf(new_state.list(AtlasTextureKind::Subpixel), AtlasTextureKind::Subpixel, new_state@));
        assert forall|k2: u64| new_state@.contains_key(k2) implies new_state.holds_tile(
            #[trigger] new_state@[k2],
        ) by {
            if k2 != k {
                assert(old_state.holds_tile(tiles[k2]));
            }
        }
        assert forall|k1: u64, k2: u64|
            #![trigger new_state@[k1], new_state@[k2]]
            new_state@.contains_key(k1) && new_state@.contains_key(k2) && k1 != k2
                && new_state@[k1].texture_id == new_state@[k2].texture_id
                implies bounds_pixels(new_state@[k1].bounds).disjoint(bounds_pixels(new_state@[k2].bounds)) by {
            if k1 == k || k2 == k {
                let other = if k1 == k { k2 } else { k1 };
                let q2 = bucket_key(tiles[other].tile_id.0);
                assert(old_state.holds_tile(tiles[other]));
                assert(tiles_on(tiles, t.id).contains(other));
                assert(bounds_pixels(tiles[other].bounds).subset_of((t.packer.used)(q2)));
                assert((t.packer.used)(q2).disjoint(rect.pixels()));
            } else {
                assert(tiles_disjoint(tiles));
                assert(tiles[k1] == new_state@[k1]);
                assert(tiles[k2] == new_state@[k2]);
            }
        }
    }

    /// Places a tile of `size` for the new `key` in the last texture of its kind whose packer
    /// grants it (never in a mipmapped texture, and not at all when `mipmapped` asks for a
    /// texture of the tile's own), and caches it. Otherwise describes the texture to make.
    pub fn allocate(&mut self, key: &AtlasKey, size: Size, mipmapped: bool) -> (r: AllocationStep)
        requires
            old(self).wf(),
            !old(self)@.contains_key(key.id),
        ensures
            final(self).wf(),
            !mipmapped && old(self).list(key.kind).accepts_from(size, 0) ==> r is Allocated,
            !mipmapped && old(self).list(key.kind).has_open_room_from(size, 0) ==> r is Allocated,
            match r {
                AllocationStep::Allocated(tile) => {
                    let j = tile.texture_id.index as int;
                    &&& !mipmapped
                    &&& tile.texture_id.kind == key.kind
                    &&& tile.bounds.size == size
                    &&& final(self)@ == old(self)@.insert(key.id, tile)
                    &&& old(self).list(key.kind).grew_at(final(self).list(key.kind), j, tile)
                    &&& !old(self).list(key.kind).slots[j]->0.mipmapped
                    &&& old(self).list(key.kind).slots[j]->0.accepts(size)
                    &&& !old(self).list(key.kind).accepts_from(size, j + 1)
                    &&& !old(self).list(key.kind).has_open_room_from(size, j + 1)
                    &&& forall|other: AtlasTextureKind|
                        other != key.kind ==> #[trigger] final(self).list(other) == old(self).list(other)
                },
                AllocationStep::NeedsTexture(desc) => {
                    &&& desc == spec_texture_descriptor(size, key.kind, mipmapped)
                    &&& mipmapped || !old(self).list(key.kind).accepts_from(size, 0)
                    &&& mipmapped || !old(self).list(key.kind).has_open_room_from(size, 0)
                    &&& final(self)@ == old(self)@
                    &&& forall|kind: AtlasTextureKind| #[trigger] final(self).list(kind) == old(self).list(kind)
                },
            },
    {
        broadcast use vstd::std_specs::hash::group_hash_axioms;
        let ghost old_state = *self;
        let kind = key.texture_kind();
        if !mipmapped {
            let allocated = match kind {
                AtlasTextureKind::Monochrome => self.monochrome_textures.allocate_existing(size),
                AtlasTextureKind::Polychrome => self.polychrome_textures.allocate_existing(size),
                AtlasTextureKind::Subpixel => self.subpixel_textures.allocate_existing(size),
            };
            match allocated {
                Some(tile) => {
                    self.tiles_by_key.insert(key.id, tile);
                    proof {
                        AtlasState::lemma_added_wf(&old_state, self, key.id, tile);
                    }
                    return AllocationStep::Allocated(tile);
                },
                None => {},
            }
        }
        AllocationStep::NeedsTexture(texture_descriptor(size, kind, mipmapped))
    }

    /// No cached tile names the slot where the next texture of `kind` goes.
    proof fn lemma_next_slot_unused(&self, kind: AtlasTextureKind)
        requires
            self.wf(),
        ensures
            forall|k: u64|
                self@.contains_key(k) ==> (#[trigger] self@[k]).texture_id
                    != (AtlasTextureId { index: self.list(kind).next_index() as u32, kind }),
    {
        let l = self.list(kind);
        assert forall|k: u64| self@.contains_key(k) implies (#[trigger] self@[k]).texture_id
            != (AtlasTextureId { index: l.next_index() as u32, kind }) by {
            assert(self.holds_tile(self@[k]));
            if self@[k].texture_id.kind == kind {
                if l.free_list.len() > 0 {
                    let last = l.free_list.len() - 1;
                    assert(l.free_list[last] == l.next_index());
                    assert(l.slots[l.next_index()] is None);
                }
            }
        }
    }

    /// The invariant after a fresh texture was placed in the next slot of `kind`.
    proof fn lemma_pushed_wf(
        old_state: &AtlasState,
        new_state: &AtlasState,
        kind: AtlasTextureKind,
        size: Size,
        mipmapped: bool,
    )
        requires
            old_state.wf(),
            old_state.list(kind).slots.len() < u32::MAX,
            new_state@ == old_state@,
            new_state.list(kind).slots_wf(),
            new_state.list(kind) == old_state.list(kind).with_texture_pushed(
                new_state.list(kind).slots[old_state.list(kind).next_index()]->0,
            ),
            new_state.list(kind).slots[old_state.list(kind).next_index()]->0.is_fresh(
                AtlasTextureId { index: old_state.list(kind).next_index() as u32, kind },
                size,
                mipmapped,
            ),
            forall|other: AtlasTextureKind|
                other != kind ==> #[trigger] new_state.list(other) == old_state.list(other),
        ensures
            new_state.wf(),
    {
        let l = old_state.list(kind);
        old_state.lemma_next_slot_unused(kind);
        lemma_push_texture_list(l, new_state.list(kind), kind, old_state@, size, mipmapped);
        assert(list_wf(new_state.list(AtlasTextureKind::Monochrome), AtlasTextureKind::Monochrome, new_state@));
        assert(list_wf(new_state.list(AtlasTextureKind::Polychrome), AtlasTextureKind::Polychrome, new_state@));
        assert(list_wf(new_state.list(AtlasTextureKind::Subpixel), AtlasTextureKind::Subpixel, new_state@));
        assert forall|k: u64| new_state@.contains_key(k) implies new_state.holds_tile(
            #[trigger] new_state@[k],
        ) by {
            assert(old_state.holds_tile(old_state@[k]));
        }
    }

    /// Makes the texture that `allocate` described (the caller has made its device texture),
    /// places it in the last freed slot of the key's kind or in a new slot at the end, and
    /// places the tile of `size` for the new `key` in it, caching the tile when its packer
    /// grants it, which it does whenever the tile fits the texture. Returns the new texture's
    /// id along with the tile.
    pub fn allocate_in_new_texture(&mut self, key: &AtlasKey, size: Size, mipmapped: bool) -> (r: (
        AtlasTextureId,
        Option<AtlasTile>,
    ))
        requires
            old(self).wf(),
            !old(self)@.contains_key(key.id),
            old(self).list(key.kind).slots.len() < u32::MAX,
            0 < spec_texture_size(size, mipmapped).width.0,
            0 < spec_texture_size(size, mipmapped).height.0,
        ensures
            final(self).wf(),
            tile_fits(size, spec_texture_size(size, mipmapped)) ==> r.1 is Some,
            ({
                let l = old(self).list(key.kind);
                let index = l.next_index();
                let id = AtlasTextureId { index: index as u32, kind: key.kind };
                let tex_size = spec_texture_size(size, mipmapped);
                &&& r.0 == id
                &&& forall|other: AtlasTextureKind|
                    other != key.kind ==> #[trigger] final(self).list(other) == old(self).list(other)
                &&& match r.1 {
                    None => {
                        &&& final(self)@ == old(self)@
                        &&& final(self).list(key.kind) == l.with_texture_pushed(
                            final(self).list(key.kind).slots[index]->0,
                        )
                        &&& final(self).list(key.kind).slots[index]->0.is_fresh(id, tex_size, mipmapped)
                    },
                    Some(tile) => {
                        &&& tile.texture_id == id
                        &&& tile.bounds.size == size
                        &&& final(self)@ == old(self)@.insert(key.id, tile)
                        &&& exists|pushed: TextureListView|
                            #[trigger] pushed.grew_at(final(self).list(key.kind), index, tile)
                                && pushed == l.with_texture_pushed(pushed.slots[index]->0)
                                && pushed.slots[index]->0.is_fresh(id, tex_size, mipmapped)
                    },
                }
            }),
    {
        broadcast use vstd::std_specs::hash::group_hash_axioms;
        let ghost old_state = *self;
        let kind = key.texture_kind();
        let tex_size = texture_size(size, mipmapped);
        let index = match kind {
            AtlasTextureKind::Monochrome => self.monochrome_textures.push_texture(kind, tex_size, mipmapped),
            AtlasTextureKind::Polychrome => self.polychrome_textures.push_texture(kind, tex_size, mipmapped),
            AtlasTextureKind::Subpixel => self.subpixel_textures.push_texture(kind, tex_size, mipmapped),
        };
        proof {
            AtlasState::lemma_pushed_wf(&old_state, self, kind, tex_size, mipmapped);
        }
        let ghost mid_state = *self;
        let id = AtlasTextureId { index: index as u32, kind };
        let allocated = match kind {
            AtlasTextureKind::Monochrome => self.monochrome_textures.allocate_in(index, size),
            AtlasTextureKind::Polychrome => self.polychrome_textures.allocate_in(index, size),
            AtlasTextureKind::Subpixel => self.subpixel_textures.allocate_in(index, size),
        };
        match allocated {
            Some(tile) => {
                self.tiles_by_key.insert(key.id, tile);
                proof {
                    AtlasState::lemma_added_wf(&mid_state, self, key.id, tile);
                    assert(mid_state.list(kind).grew_at(self.list(kind), index as int, tile));
                }
            },
            None => {},
        }
        (id, allocated)
    }

    /// Drops the tile cached under `key`: its rectangle goes back to its texture's packer, and a
    /// texture left without tiles is released, its slot freed for the next texture of its kind.
    /// Returns the id of a released texture, so that the caller drops the device texture too.
    pub fn remove(&mut self, key: &AtlasKey) -> (freed: Option<AtlasTextureId>)
        requires
            old(self).wf(),
        ensures
            final(self).wf(),
            final(self)@ == old(self)@.remove(key.id),
            !old(self)@.contains_key(key.id) ==> {
                &&& freed is None
                &&& forall|kind: AtlasTextureKind| #[trigger] final(self).list(kind) == old(self).list(kind)
            },
            old(self)@.contains_key(key.id) ==> {
                let tile = old(self)@[key.id];
                let kind = tile.texture_id.kind;
                let j = tile.texture_id.index as int;
                &&& old(self).list(kind).released_at(final(self).list(kind), j, tile.tile_id.0)
                &&& forall|other: AtlasTextureKind|
                    other != kind ==> #[trigger] final(self).list(other) == old(self).list(other)
                &&& freed == (if old(self).list(kind).slots[j]->0.live_atlas_keys == 1 {
                    Some(tile.texture_id)
                } else {
                    None::<AtlasTextureId>
                })
            },
    {
        broadcast use vstd::std_specs::hash::group_hash_axioms;
        let ghost old_state = *self;
        let removed = self.tiles_by_key.remove(&key.id);
        let tile = match removed {
            None => {
                assert(self@ =~= old(self)@.remove(key.id));
                assert(self@ =~= old_state@);
                assert(self.list(AtlasTextureKind::Monochrome) == old_state.list(AtlasTextureKind::Monochrome));
                assert(self.list(AtlasTextureKind::Polychrome) == old_state.list(AtlasTextureKind::Polychrome));
                assert(self.list(AtlasTextureKind::Subpixel) == old_state.list(AtlasTextureKind::Subpixel));
                return None;
            },
            Some(tile) => tile,
        };
        let id = tile.texture_id;
        let index = id.index as usize;
        proof {
            let tiles = old_state@;
            let t = old_state.list(id.kind).slots[index as int]->0;
            assert(old_state.holds_tile(tiles[key.id]));
            assert(t.id.index == index);
            assert(texture_wf(t, id.kind, tiles));
            lemma_tiles_finite(tiles, id, bucket_key(tile.tile_id.0));
            assert(keyed_tiles(tiles, id, bucket_key(tile.tile_id.0)).contains(key.id));
        }
        let freed = match id.kind {
            AtlasTextureKind::Monochrome => self.monochrome_textures.release(index, tile.tile_id.0),
            AtlasTextureKind::Polychrome => self.polychrome_textures.release(index, tile.tile_id.0),
            AtlasTextureKind::Subpixel => self.subpixel_textures.release(index, tile.tile_id.0),
        };
        proof {
            AtlasState::lemma_removed_wf(&old_state, self, key.id);
        }
        if freed {
            Some(id)
        } else {
            None
        }
    }

    /// Forgets every texture and tile, as after the device was lost and made anew.
    pub fn handle_device_lost(&mut self)
        ensures
            final(self).wf(),
            final(self)@ == Map::<u64, AtlasTile>::empty(),
            forall|kind: AtlasTextureKind| #[trigger] final(self).list(kind).slots.len() == 0,
            forall|kind: AtlasTextureKind| #[trigger] final(self).list(kind).free_list.len() == 0,
    {
        broadcast use vstd::std_specs::hash::group_hash_axioms;
        self.monochrome_textures = AtlasTextureList::new();
        self.polychrome_textures = AtlasTextureList::new();
        self.subpixel_textures = AtlasTextureList::new();
        self.tiles_by_key.clear();
    }

    /// The number of slots, live or free, in the list of `kind`.
    pub fn texture_slots(&self, kind: AtlasTextureKind) -> (r: usize)
        ensures
            r == self.list(kind).slots.len(),
    {
        match kind {
            AtlasTextureKind::Monochrome => self.monochrome_textures.slot_count(),
            AtlasTextureKind::Polychrome => self.polychrome_textures.slot_count(),
            AtlasTextureKind::Subpixel => self.subpixel_textures.slot_count(),
        }
    }

    /// The texture with `id`, which must be live.
    pub fn texture(&self, id: AtlasTextureId) -> (r: &AtlasTexture)
        requires
            (id.index as int) < self.list(id.kind).slots.len(),
            self.list(id.kind).slots[id.index as int] is Some,
        ensures
            Some(r@) == self.list(id.kind).slots[id.index as int],
    {
        match id.kind {
            AtlasTextureKind::Monochrome => self.monochrome_textures.texture(id.index as usize),
            AtlasTextureKind::Polychrome => self.polychrome_textures.texture(id.index as usize),
            AtlasTextureKind::Subpixel => self.subpixel_textures.texture(id.index as usize),
        }
    }

    /// Every cached tile lies inside a live texture of its kind, in room that its packer
    /// handed out and still counts.
    pub proof fn lemma_cached_tiles_lie_in_live_textures(&self, k: u64)
        requires
            self.wf(),
            self@.contains_key(k),
        ensures
            ({
                let tile = self@[k];
                let l = self.list(tile.texture_id.kind);
                let i = tile.texture_id.index as int;
                let key = bucket_key(tile.tile_id.0);
                &&& i < l.slots.len()
                &&& l.slots[i] is Some
                &&& l.slots[i]->0.id == tile.texture_id
                &&& tile_inside(tile.bounds, l.slots[i]->0.size)
                &&& l.slots[i]->0.packer.live_keys.count(key) > 0
                &&& bounds_pixels(tile.bounds).subset_of((l.slots[i]->0.packer.used)(key))
                &&& tile.padding == 0
            }),
    {
        let tile = self@[k];
        let kind = tile.texture_id.kind;
        assert(self.holds_tile(tile));
        let l = self.list(kind);
        let i = tile.texture_id.index as int;
        let key = bucket_key(tile.tile_id.0);
        assert(l.slots[i]->0.id.index == i);
        assert(texture_wf(l.slots[i]->0, kind, self@));
        assert(tiles_on(self@, tile.texture_id).contains(k));
        assert(keyed_tiles(self@, tile.texture_id, key).contains(k));
        lemma_tiles_finite(self@, tile.texture_id, key);
    }

    /// No two cached tiles of one texture overlap.
    pub proof fn lemma_cached_tiles_do_not_overlap(&self, k1: u64, k2: u64)
        requires
            self.wf(),
            self@.contains_key(k1),
            self@.contains_key(k2),
            k1 != k2,
            self@[k1].texture_id == self@[k2].texture_id,
        ensures
            bounds_pixels(self@[k1].bounds).disjoint(bounds_pixels(self@[k2].bounds)),
    {
    }

    /// The count of live keys of a texture is the number of cached tiles that lie in it, and a
    /// mipmapped texture holds at most one.
    pub proof fn lemma_live_keys_count_tiles(&self, kind: AtlasTextureKind, i: int)
        requires
            self.wf(),
            0 <= i < self.list(kind).slots.len(),
            self.list(kind).slots[i] is Some,
        ensures
            ({
                let t = self.list(kind).slots[i]->0;
                &&& t.live_atlas_keys == tiles_on(self@, t.id).len()
                &&& t.mipmapped ==> tiles_on(self@, t.id).len() <= 1
            }),
    {
        assert(texture_wf(self.list(kind).slots[i]->0, kind, self@));
    }

    /// In each list, slot `i` holds the texture with index `i` of that kind, and the free list
    /// names each empty slot exactly once.
    pub proof fn lemma_slots_and_free_list(&self, kind: AtlasTextureKind)
        requires
            self.wf(),
        ensures
            self.list(kind).free_list.no_duplicates(),
            forall|i: int|
                0 <= i < self.list(kind).slots.len() ==> (#[trigger] self.list(kind).slots[i] is None
                    <==> self.list(kind).free_list.contains(i as usize)),
            forall|x: int|
                0 <= x < self.list(kind).free_list.len() ==> (#[trigger] self.list(kind).free_list[x])
                    < self.list(kind).slots.len(),
            forall|i: int|
                0 <= i < self.list(kind).slots.len() && #[trigger] self.list(kind).slots[i] is Some ==> {
                    &&& self.list(kind).slots[i]->0.id == (AtlasTextureId { index: i as u32, kind })
                    &&& self.list(kind).slots[i]->0.bytes_per_pixel == spec_bytes_per_pixel(kind)
                },
    {
        let l = self.list(kind);
        assert(list_wf(l, kind, self@));
        assert forall|i: int| 0 <= i < l.slots.len() implies (#[trigger] l.slots[i] is None
            <==> l.free_list.contains(i as usize)) by {
            if l.free_list.contains(i as usize) {
                let x = choose|x: int| 0 <= x < l.free_list.len() && l.free_list[x] == i as usize;
                assert(l.slots[l.free_list[x] as int] is None);
            }
        }
        assert forall|i: int| 0 <= i < l.slots.len() && #[trigger] l.slots[i] is Some implies {
            &&& l.slots[i]->0.id == (AtlasTextureId { index: i as u32, kind })
            &&& l.slots[i]->0.bytes_per_pixel == spec_bytes_per_pixel(kind)
        } by {
            assert(texture_wf(l.slots[i]->0, kind, self@));
        }
    }

    /// `remove` releases a texture exactly when the tile it drops is the only one in it.
    pub proof fn lemma_released_exactly_when_last(&self, k: u64)
        requires
            self.wf(),
            self@.contains_key(k),
        ensures
            ({
                let tile = self@[k];
                let t = self.list(tile.texture_id.kind).slots[tile.texture_id.index as int]->0;
                t.live_atlas_keys == 1 <==> tiles_on(self@, tile.texture_id) == Set::<u64>::empty().insert(k)
            }),
    {
        let tile = self@[k];
        let kind = tile.texture_id.kind;
        let i = tile.texture_id.index as int;
        self.lemma_cached_tiles_lie_in_live_textures(k);
        self.lemma_live_keys_count_tiles(kind, i);
        let s = tiles_on(self@, tile.texture_id);
        assert(s.contains(k));
        lemma_tiles_finite(self@, tile.texture_id, 0);
        if s.len() == 1 {
            assert forall|k2: u64| s.contains(k2) implies k2 == k by {
                lemma_singleton(s, k, k2);
            }
            assert(s =~= Set::<u64>::empty().insert(k));
        }
    }

    /// A mipmapped texture holds the one tile it was made for: no other cached key lies in it,
    /// whatever was placed or removed since. A tile as large as its texture (as the tile of a
    /// texture of its own is, see `lemma_new_texture_holds_tile`) starts at the texture's
    /// corner.
    pub proof fn lemma_mipmapped_texture_holds_one_tile(&self, k: u64)
        requires
            self.wf(),
            self@.contains_key(k),
        ensures
            ({
                let tile = self@[k];
                let t = self.list(tile.texture_id.kind).slots[tile.texture_id.index as int]->0;
                &&& t.mipmapped ==> forall|k2: u64|
                    #[trigger] self@.contains_key(k2) && self@[k2].texture_id == tile.texture_id ==> k2 == k
                &&& tile.bounds.size == t.size ==> tile.bounds.origin == (Point {
                    x: DevicePixels(0),
                    y: DevicePixels(0),
                })
            }),
    {
        let tile = self@[k];
        let kind = tile.texture_id.kind;
        let i = tile.texture_id.index as int;
        self.lemma_cached_tiles_lie_in_live_textures(k);
        self.lemma_live_keys_count_tiles(kind, i);
        let t = self.list(kind).slots[i]->0;
        let s = tiles_on(self@, tile.texture_id);
        lemma_tiles_finite(self@, tile.texture_id, 0);
        assert(s.contains(k));
        if t.mipmapped {
            assert forall|k2: u64|
                #[trigger] self@.contains_key(k2) && self@[k2].texture_id == tile.texture_id implies k2 == k by {
                assert(s.contains(k2));
                lemma_singleton(s, k, k2);
            }
        }
    }

    /// The tile cached under `key`, if any.
    pub fn get_tile(&self, key: &AtlasKey) -> (r: Option<AtlasTile>)
        ensures
            r == (if self@.contains_key(key.id) { Some(self@[key.id]) } else { None::<AtlasTile> }),
    {
        broadcast use vstd::std_specs::hash::group_hash_axioms;
        match self.tiles_by_key.get(&key.id) {
            Some(tile) => Some(*tile),
            None => None,
        }
    }
}

/// Placing a tile and then removing it again gives its room back: the texture's packer has at
/// least the free height and no more shelves than before the tile came, so a tile that could
/// open a shelf then can open one again (when the placement used up neither the bucket records
/// nor the texture's last grant).
pub proof fn lemma_removed_tile_gives_room_back(
    before: TextureView,
    with_tile: TextureView,
    after: TextureView,
    tile: AtlasTile,
    size: Size,
)
    requires
        before.grew(with_tile, tile),
        with_tile.shrank(after, tile.tile_id.0),
    ensures
        after.packer.free_height >= before.packer.free_height,
        after.packer.shelf_count <= before.packer.shelf_count,
        after.packer.extent == before.packer.extent,
        after.packer.bucket_count <= before.packer.bucket_count + 4 + before.packer.extent.0 / 8,
        before.has_open_room(size) && before.packer.bucket_count + 4 + before.packer.extent.0 / 8
            < 4095 && before.grants + 1 < MAX_TEXTURE_GRANTS ==> after.has_open_room(size),
{
    let rect = choose|rect: AllocatedRect|
        #[trigger] before.packer.grants(
            with_tile.packer,
            tile.bounds.size.width.0 as int,
            tile.bounds.size.height.0 as int,
            rect,
        ) && rect.id == tile.tile_id.0 && rect.min_x == tile.bounds.origin.x.0 && rect.min_y
            == tile.bounds.origin.y.0;
}

/// In the atlas: when `allocate` (or `allocate_in_new_texture`) placed `tile` in texture slot
/// `j` and `remove` then drops it while other tiles keep the texture, the texture has its room
/// back, as `lemma_removed_tile_gives_room_back` states.
pub proof fn lemma_atlas_remove_gives_room_back(
    before: TextureListView,
    with_tile: TextureListView,
    after: TextureListView,
    j: int,
    tile: AtlasTile,
    size: Size,
)
    requires
        before.grew_at(with_tile, j, tile),
        with_tile.released_at(after, j, tile.tile_id.0),
        with_tile.slots[j]->0.live_atlas_keys != 1,
    ensures
        after.slots[j] is Some,
        after.slots[j]->0.packer.free_height >= before.slots[j]->0.packer.free_height,
        after.slots[j]->0.packer.shelf_count <= before.slots[j]->0.packer.shelf_count,
        ({
            let t0 = before.slots[j]->0;
            t0.has_open_room(size) && t0.packer.bucket_count + 4 + t0.packer.extent.0 / 8 < 4095
                && t0.grants + 1 < MAX_TEXTURE_GRANTS ==> after.slots[j]->0.has_open_room(size)
        }),
{
    lemma_removed_tile_gives_room_back(
        before.slots[j]->0,
        with_tile.slots[j]->0,
        after.slots[j]->0,
        tile,
        size,
    );
}

} // verus!
