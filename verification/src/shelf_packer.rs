use vstd::prelude::*;
use vstd::multiset::Multiset;
use etagere::BucketedAtlasAllocator;

verus! {

#[verifier::external_type_specification]
#[verifier::external_body]
pub struct ExBucketedAtlasAllocator(BucketedAtlasAllocator);

/// The most items that one bucketed allocator can hold at once: it has fewer than 4095 buckets
/// and a bucket hands out fewer than 4095 items.
pub const MAX_LIVE_ALLOCATIONS: u32 = 16_769_025;

/// For each item the allocator holds, the key of its bucket (see `bucket_key`): a bucket counts
/// its items but does not record which of them are live.
pub uninterp spec fn allocator_live_keys(a: BucketedAtlasAllocator) -> Multiset<u32>;

/// The width and height that an allocator packs into (what its `size` method reports).
pub uninterp spec fn allocator_extent(a: BucketedAtlasAllocator) -> (int, int);

/// The pixels that the bucket with `key` has handed out since it last emptied: a bucket fills
/// from its left edge, over the whole height of its shelf, and gets its room back only when its
/// last item leaves. Empty for a key that names no current bucket.
pub uninterp spec fn allocator_used_area(a: BucketedAtlasAllocator, key: u32) -> Set<(int, int)>;

/// The height that no shelf takes yet (the allocator's `available_height`).
pub uninterp spec fn allocator_free_height(a: BucketedAtlasAllocator) -> int;

/// The number of shelves.
pub uninterp spec fn allocator_shelf_count(a: BucketedAtlasAllocator) -> int;

/// The number of bucket records, in use or kept for reuse.
pub uninterp spec fn allocator_bucket_count(a: BucketedAtlasAllocator) -> int;

/// The height of the topmost shelf (0 when there is none).
pub uninterp spec fn allocator_top_shelf_height(a: BucketedAtlasAllocator) -> int;

/// The bucket keys of the items on the topmost shelf.
pub uninterp spec fn allocator_top_shelf_keys(a: BucketedAtlasAllocator) -> Multiset<u32>;

/// The largest count of items handed out by one bucket of a current shelf (0 when there is no
/// shelf); a bucket counts in 16 bits, and the count restarts only when its record is reused
/// for a new shelf.
pub uninterp spec fn allocator_max_item_count(a: BucketedAtlasAllocator) -> int;

/// Whether `allocate` refuses an item of `width` × `height` in this state (it decides from its
/// state and the size alone).
pub uninterp spec fn allocator_refuses(a: BucketedAtlasAllocator, width: i32, height: i32) -> bool;

/// The key of the bucket that handed out the item with serialized id `id`: its bucket index
/// (low 12 bits) and the bucket's generation (high 8 bits); the middle bits count items.
pub open spec fn bucket_key(id: u32) -> u32 {
    (id % 0x1000 + (id / 0x100_0000) * 0x100_0000) as u32
}

/// The height of a new shelf for items of height `h`: `h` rounded up to a multiple of 8, 16,
/// 32 or 64, by the size of `h`.
pub open spec fn shelf_rounding(h: int) -> int {
    let alignment = if h <= 31 { 8 } else if h <= 127 { 16 } else if h <= 511 { 32 } else { 64 };
    if h % alignment > 0 { h + alignment - h % alignment } else { h }
}

/// The pixels of the rectangle from corner `(x0, y0)` up to, not including, `(x1, y1)`.
pub open spec fn rect_pixels(x0: int, y0: int, x1: int, y1: int) -> Set<(int, int)> {
    Set::new(|p: (int, int)| x0 <= p.0 < x1 && y0 <= p.1 < y1)
}

/// What can be known of an allocator.
pub struct PackerView {
    pub live_keys: Multiset<u32>,
    pub extent: (int, int),
    pub used: spec_fn(u32) -> Set<(int, int)>,
    pub free_height: int,
    pub shelf_count: int,
    pub bucket_count: int,
    pub top_height: int,
    pub top_keys: Multiset<u32>,
    pub max_item_count: int,
    pub refuses: spec_fn(i32, i32) -> bool,
}

pub open spec fn packer_view(a: BucketedAtlasAllocator) -> PackerView {
    PackerView {
        live_keys: allocator_live_keys(a),
        extent: allocator_extent(a),
        used: |key: u32| allocator_used_area(a, key),
        free_height: allocator_free_height(a),
        shelf_count: allocator_shelf_count(a),
        bucket_count: allocator_bucket_count(a),
        top_height: allocator_top_shelf_height(a),
        top_keys: allocator_top_shelf_keys(a),
        max_item_count: allocator_max_item_count(a),
        refuses: |width: i32, height: i32| allocator_refuses(a, width, height),
    }
}

/// A rectangle handed out by the allocator: its serialized id and its corners.
pub struct AllocatedRect {
    pub id: u32,
    pub min_x: i32,
    pub min_y: i32,
    pub max_x: i32,
    pub max_y: i32,
}

impl AllocatedRect {
    pub open spec fn pixels(&self) -> Set<(int, int)> {
        rect_pixels(self.min_x as int, self.min_y as int, self.max_x as int, self.max_y as int)
    }
}

impl PackerView {
    /// The allocator can open a new shelf for an item of this size: the item is no wider than
    /// the allocator and no taller than its free height, and it has fewer than 65535 shelves and
    /// 4095 bucket records.
    pub open spec fn can_open_shelf(&self, width: int, height: int) -> bool {
        &&& 0 < width <= self.extent.0
        &&& 0 < height <= self.free_height
        &&& self.shelf_count < 65535
        &&& self.bucket_count < 4095
    }

    /// `next` is this allocator after it handed out `rect` for an item of `width` × `height`:
    /// the rectangle has exactly that width, at least that height, lies inside the extent and
    /// overlaps no room handed out before; its bucket's key is added; and either a new top
    /// shelf was opened for it (taking its rounded height from the free height, with at most
    /// 4 + extent/8 new bucket records) or it went into an existing shelf.
    pub open spec fn grants(&self, next: PackerView, width: int, height: int, rect: AllocatedRect) -> bool {
        let key = bucket_key(rect.id);
        &&& next.extent == self.extent
        &&& self.live_keys.len() < MAX_LIVE_ALLOCATIONS
        &&& next.live_keys == self.live_keys.insert(key)
        &&& rect.max_x - rect.min_x == width
        &&& rect.max_y - rect.min_y >= height
        &&& 0 <= rect.min_x
        &&& 0 <= rect.min_y
        &&& rect.max_x <= self.extent.0
        &&& rect.max_y <= self.extent.1
        &&& forall|k: u32| #[trigger] (self.used)(k).disjoint(rect.pixels())
        &&& (next.used)(key) == (self.used)(key) + rect.pixels()
        &&& forall|k: u32| k != key ==> #[trigger] (next.used)(k) == (self.used)(k)
        &&& 0 <= next.top_height
        &&& next.max_item_count <= self.max_item_count + 1
        &&& {
            ||| {
                &&& next.shelf_count == self.shelf_count + 1
                &&& height <= next.top_height <= shelf_rounding(height)
                &&& next.free_height == self.free_height - next.top_height
                &&& next.top_keys == Multiset::<u32>::singleton(key)
                &&& self.bucket_count <= next.bucket_count <= self.bucket_count + 4 + self.extent.0 / 8
            }
            ||| {
                &&& next.shelf_count == self.shelf_count
                &&& next.free_height == self.free_height
                &&& next.bucket_count == self.bucket_count
                &&& next.top_height == self.top_height
                &&& (next.top_keys == self.top_keys.insert(key) || next.top_keys == self.top_keys)
            }
        }
    }

    /// `next` is this allocator after it took back one item of the bucket with `key`: the
    /// bucket's room comes back when that was its last item, and when it was the last item of
    /// the top shelf, that shelf (and any empty shelves below it) goes, its height freed.
    pub open spec fn takes_back(&self, next: PackerView, key: u32) -> bool {
        &&& next.extent == self.extent
        &&& next.bucket_count == self.bucket_count
        &&& next.live_keys == self.live_keys.remove(key)
        &&& 0 <= next.top_height
        &&& next.max_item_count <= self.max_item_count
        &&& self.live_keys.count(key) > 1 ==> next.used == self.used
        &&& self.live_keys.count(key) == 1 ==> {
            &&& (next.used)(key) == Set::<(int, int)>::empty()
            &&& forall|k: u32| k != key ==> #[trigger] (next.used)(k) == (self.used)(k)
        }
        &&& self.top_keys == Multiset::<u32>::singleton(key) ==> {
            &&& next.free_height >= self.free_height + self.top_height
            &&& next.shelf_count < self.shelf_count
        }
        &&& self.top_keys != Multiset::<u32>::singleton(key) ==> {
            &&& next.free_height == self.free_height
            &&& next.shelf_count == self.shelf_count
            &&& next.top_height == self.top_height
            &&& next.top_keys == self.top_keys.remove(key)
        }
    }
}

/// Calls `etagere::BucketedAtlasAllocator::new` with default options.
///
/// Claimed: the new allocator holds nothing, has no shelf (so a top shelf of height 0) and no
/// bucket record, and, for sides
/// that are not negative, packs into the requested size with all its height free. `new`
/// asserts that each side is below `u16::MAX`, hence the `requires`.
#[verifier::external_body]
pub fn new_shelf_packer(width: i32, height: i32) -> (a: BucketedAtlasAllocator)
    requires
        width < 65535,
        height < 65535,
    ensures
        allocator_live_keys(a) == Multiset::<u32>::empty(),
        forall|k: u32| #[trigger] allocator_used_area(a, k) == Set::<(int, int)>::empty(),
        allocator_shelf_count(a) == 0,
        allocator_bucket_count(a) == 0,
        allocator_top_shelf_height(a) == 0,
        allocator_top_shelf_keys(a) == Multiset::<u32>::empty(),
        allocator_max_item_count(a) == 0,
        0 <= width && 0 <= height ==> allocator_extent(a) == (width as int, height as int),
        0 <= height ==> allocator_free_height(a) == height,
{
    BucketedAtlasAllocator::new(etagere::size2(width, height))
}

/// Calls `etagere::BucketedAtlasAllocator::allocate` and reads back the allocation's id
/// (`AllocId::serialize`) and rectangle.
///
/// Claimed: the result is a refusal exactly when `allocator_refuses` says so (the allocator is
/// deterministic); a refusal changes nothing that can be known of the allocator and comes whenever a
/// side is not positive or exceeds the extent; an item that a new shelf can take (see
/// `can_open_shelf`) is granted; a grant is as `grants` says (the allocator looks for a bucket
/// with room in an existing shelf first, else opens a shelf, else merges empty shelves).
/// Whether other requests that fit are granted is not stated: it depends on how the shelves are
/// filled. The merging search reads the shelves past an empty one; it stays in bounds because
/// the top shelf always holds an item (a shelf is opened for an item, and a shelf left empty on
/// top is removed at once, along with the empty shelves below it). Rounding a shelf's height up
/// overflows 16 bits above 65472 pixels, and the allocator adds each grant's area to a 32-bit
/// signed total, hence the `requires` on the extent. When no shelf can be opened, merging empty
/// shelves hands out their first bucket without checking its 16-bit item count, which then
/// overflows past 65535, hence the `requires` on the largest item count.
#[verifier::external_body]
pub fn shelf_allocate(a: &mut BucketedAtlasAllocator, width: i32, height: i32) -> (r: Option<AllocatedRect>)
    requires
        packer_view(*old(a)).extent.1 <= 65472,
        packer_view(*old(a)).extent.0 * packer_view(*old(a)).extent.1 <= i32::MAX,
        packer_view(*old(a)).max_item_count < 65535,
    ensures
        r is None <==> allocator_refuses(*old(a), width, height),
        packer_view(*final(a)).extent == packer_view(*old(a)).extent,
        (width <= 0 || height <= 0 || width > packer_view(*old(a)).extent.0
            || height > packer_view(*old(a)).extent.1) ==> r is None,
        packer_view(*old(a)).can_open_shelf(width as int, height as int) ==> r is Some,
        r is None ==> packer_view(*final(a)) == packer_view(*old(a)),
        r matches Some(rect) ==> packer_view(*old(a)).grants(
            packer_view(*final(a)),
            width as int,
            height as int,
            rect,
        ),
{
    match a.allocate(etagere::size2(width, height)) {
        Some(alloc) => Some(AllocatedRect {
            id: alloc.id.serialize(),
            min_x: alloc.rectangle.min.x,
            min_y: alloc.rectangle.min.y,
            max_x: alloc.rectangle.max.x,
            max_y: alloc.rectangle.max.y,
        }),
        None => None,
    }
}

/// Calls `etagere::BucketedAtlasAllocator::deallocate` on the id rebuilt with
/// `AllocId::deserialize`.
///
/// Claimed: as `takes_back` says for the id's bucket key. `deallocate` asserts that the id's
/// bucket is current and holds an item, hence the `requires`.
#[verifier::external_body]
pub fn shelf_deallocate(a: &mut BucketedAtlasAllocator, id: u32)
    requires
        packer_view(*old(a)).live_keys.count(bucket_key(id)) > 0,
    ensures
        packer_view(*old(a)).takes_back(packer_view(*final(a)), bucket_key(id)),
{
    a.deallocate(etagere::AllocId::deserialize(id))
}

} // verus!
